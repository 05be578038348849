//! The curve stays between its points, and does not turn between them.

use vstd::arithmetic::power2::*;
use vstd::prelude::*;

use crate::document::cubic_arithmetic;
use crate::document::cubic_arithmetic::{Parts, Weights};
use crate::document::curve;
use crate::document::curve::ToneCurve;
use crate::document::curve_laws;
use crate::document::tangent_arithmetic;
use crate::document::values;
use crate::number::bounds;
use crate::number::constants;
use crate::number::laws;
use crate::number::nearness_laws;
use crate::number::rounding;
use crate::number::scalar::Scalar;

verus! {

/// How many units make one.
spec fn one_in_units() -> int {
    pow2(149) as int
}

/// What one rounding may change between zero and four.
spec fn grain() -> int {
    pow2(128) as int
}

proof fn lemma_scales()
    ensures
        one_in_units() == 0x20_0000 * grain(),
        one_in_units() == 65536 * (32 * grain()),
        grain() * 0x80_0000 == 4 * one_in_units(),
        grain() >= 0x1_0000_0000_0000_0000,
        one_in_units() >= 0x1_0000_0000_0000_0000_0000_0000_0000_0000,
        bounds::power(0) == one_in_units(),
        bounds::power(1) == 2 * one_in_units(),
        bounds::power(2) == 4 * one_in_units(),
        bounds::power(-23) == pow2(126),
        bounds::power(10) == 1024 * one_in_units(),
        bounds::power(12) == 4096 * one_in_units(),
{
    lemma2_to64();
    lemma2_to64_rest();
    lemma_pow2_adds(128, 21);
    lemma_pow2_adds(64, 64);
    lemma_pow2_adds(149, 1);
    lemma_pow2_adds(149, 2);
    lemma_pow2_adds(149, 10);
    lemma_pow2_adds(149, 12);
    assert(pow2(128) == 0x1_0000_0000_0000_0000 * 0x1_0000_0000_0000_0000);
}

/// A product of moderate size is off by one grain at most.
proof fn lemma_product_near(a: Scalar, c: Scalar)
    requires
        bounds::bounded(a, 2),
        bounds::bounded(c, 2),
        8 * (bounds::units(a) * bounds::units(c)) <= 31 * (one_in_units() * one_in_units()),
    ensures
        a.product(c).finite(),
        cubic_arithmetic::near(
            laws::exact(a.product(c)) * one_in_units(),
            laws::exact(a) * laws::exact(c),
            grain() * one_in_units(),
        ),
{
    lemma_scales();
    bounds::a_product_is_close(a, c, 2, 2);
    bounds::a_product_is_bounded(a, c, 2, 2);
    let b = one_in_units();
    let p = bounds::units(a.product(c)) as int;
    let ac = (bounds::units(a) * bounds::units(c)) as int;
    let pb = p * b;
    let bb = b * b;
    let gb = grain() * b;
    assert(gb * 0x80_0000 == 4 * bb) by (nonlinear_arith)
        requires
            gb == grain() * b,
            bb == b * b,
            grain() * 0x80_0000 == 4 * b,
    ;
    assert(bb >= 0x1_0000_0000_0000_0000 * b) by (nonlinear_arith)
        requires
            bb == b * b,
            b >= 0x1_0000_0000_0000_0000,
    ;
    assert(pb * 0x80_0000 <= ac * 0x80_0001 + b * 0x80_0000);
    assert(ac * 0x80_0000 <= pb * 0x80_0001 + b * 0x80_0000);
    assert(pb - ac <= gb);
    assert(ac - pb <= gb);
    lemma_signed_product(a, c, a.product(c), b);
}

/// A product with its sign.
proof fn lemma_signed_product(a: Scalar, c: Scalar, p: Scalar, b: int)
    requires
        p.value().negative == (a.value().negative != c.value().negative),
    ensures
        p.value().negative ==> laws::exact(p) * b == -(bounds::units(p) * b) && laws::exact(a)
            * laws::exact(c) == -(bounds::units(a) * bounds::units(c)),
        !p.value().negative ==> laws::exact(p) * b == bounds::units(p) * b && laws::exact(a)
            * laws::exact(c) == bounds::units(a) * bounds::units(c),
{
    let x = bounds::units(a) as int;
    let y = bounds::units(c) as int;
    let z = bounds::units(p) as int;
    assert((-x) * y == -(x * y) && x * (-y) == -(x * y) && (-x) * (-y) == x * y && (-z) * b == -(z
        * b)) by (nonlinear_arith);
}

/// A sum of moderate size is off by one grain at most.
proof fn lemma_sum_near(a: Scalar, c: Scalar)
    requires
        bounds::bounded(a, 2),
        bounds::bounded(c, 2),
        -(31 * one_in_units()) <= 8 * (laws::exact(a) + laws::exact(c)) <= 31 * one_in_units(),
    ensures
        a.sum(c).finite(),
        cubic_arithmetic::near(
            laws::exact(a.sum(c)),
            laws::exact(a) + laws::exact(c),
            grain(),
        ),
{
    lemma_scales();
    bounds::a_sum_is_close(a, c, 2);
    bounds::a_sum_is_bounded(a, c, 2);
}

/// A number no larger than four is bounded.
proof fn lemma_moderate(a: Scalar)
    requires
        a.finite(),
        -(4 * one_in_units()) <= laws::exact(a) <= 4 * one_in_units(),
    ensures
        bounds::bounded(a, 2),
{
    lemma_scales();
}

/// A product with a small integer is off by one grain at most.
proof fn lemma_multiple_near(c: Scalar, a: Scalar, n: int)
    requires
        c.finite(),
        a.finite(),
        -3 <= n <= 3,
        laws::exact(c) == n * one_in_units(),
        -(9 * one_in_units()) <= 8 * laws::exact(a) <= 9 * one_in_units(),
    ensures
        c.product(a).finite(),
        cubic_arithmetic::near(laws::exact(c.product(a)), n * laws::exact(a), grain()),
{
    lemma_scales();
    let b = one_in_units();
    let x = laws::exact(a);
    let size = bounds::units(a) as int;
    let nb = n * b;
    assert(-(3 * b) <= nb <= 3 * b) by (nonlinear_arith)
        requires
            nb == n * b,
            -3 <= n <= 3,
            b >= 0,
    ;
    lemma_moderate(c);
    lemma_moderate(a);
    let m = bounds::units(c) as int;
    assert(8 * (m * size) <= 31 * (b * b)) by (nonlinear_arith)
        requires
            0 <= m <= 3 * b,
            0 <= size,
            8 * size <= 9 * b,
    ;
    lemma_product_near(c, a);
    assert(n * b * x == n * x * b) by (nonlinear_arith);
    cubic_arithmetic::lemma_near_cancel(laws::exact(c.product(a)), n * x, grain(), b);
}

/// A difference of moderate size is off by one grain at most.
proof fn lemma_difference_near(a: Scalar, c: Scalar)
    requires
        bounds::bounded(a, 2),
        bounds::bounded(c, 2),
        -(31 * one_in_units()) <= 8 * (laws::exact(a) - laws::exact(c)) <= 31 * one_in_units(),
    ensures
        a.difference(c).finite(),
        cubic_arithmetic::near(
            laws::exact(a.difference(c)),
            laws::exact(a) - laws::exact(c),
            grain(),
        ),
{
    laws::negation_is_exact(c);
    lemma_sum_near(a, c.negated());
}

/// The square and the cube of a number from zero to one.
proof fn lemma_powers_near(t: Scalar)
    requires
        t.finite(),
        0 <= laws::exact(t) <= one_in_units(),
    ensures
        ({
            let b = one_in_units();
            let g = grain();
            let t2 = t.product(t);
            let t3 = t2.product(t);
            &&& t2.finite()
            &&& t3.finite()
            &&& cubic_arithmetic::near(laws::exact(t2) * b, laws::exact(t) * laws::exact(t), g * b)
            &&& cubic_arithmetic::near(laws::exact(t3) * b, laws::exact(t2) * laws::exact(t), g * b)
            &&& -g <= laws::exact(t2) <= b + g
            &&& -(2 * g) <= laws::exact(t3) <= b + 2 * g
        }),
{
    lemma_scales();
    let b = one_in_units();
    let g = grain();
    let x = laws::exact(t);
    let t2 = t.product(t);
    let t3 = t2.product(t);
    lemma_moderate(t);
    let size = bounds::units(t) as int;
    assert(size == x);
    assert(0 <= x * x <= b * b) by (nonlinear_arith)
        requires
            0 <= x <= b,
    ;
    lemma_product_near(t, t);
    let y = laws::exact(t2);
    assert(-g <= y <= b + g) by (nonlinear_arith)
        requires
            -(g * b) <= y * b - x * x <= g * b,
            0 <= x * x <= b * b,
            b > 0,
    ;
    lemma_moderate(t2);
    let size2 = bounds::units(t2) as int;
    assert(size2 <= b + g);
    assert(8 * (size2 * size) <= 31 * (b * b)) by (nonlinear_arith)
        requires
            0 <= size2 <= b + g,
            0 <= size <= b,
            b == 0x20_0000 * g,
            g >= 0,
    ;
    lemma_product_near(t2, t);
    let z = laws::exact(t3);
    assert(-(g * b) <= y * x <= (b + g) * b) by (nonlinear_arith)
        requires
            -g <= y <= b + g,
            0 <= x <= b,
            g >= 0,
    ;
    assert(-(2 * g) <= z <= b + 2 * g) by (nonlinear_arith)
        requires
            -(g * b) <= z * b - y * x <= g * b,
            -(g * b) <= y * x <= (b + g) * b,
            b > 0,
    ;
}

/// The weights of a cubic, as they are computed.
spec fn weights_at(t: Scalar) -> Weights {
    let one = Scalar { bits: constants::ONE };
    let two = Scalar { bits: constants::TWO };
    let three = Scalar { bits: constants::THREE };
    let t2 = t.product(t);
    let t3 = t2.product(t);
    Weights {
        h00: laws::exact(two.product(t3).difference(three.product(t2)).sum(one)),
        h10: laws::exact(t3.difference(two.product(t2)).sum(t)),
        h01: laws::exact(two.negated().product(t3).sum(three.product(t2))),
        h11: laws::exact(t3.difference(t2)),
    }
}

proof fn lemma_weights_near(t: Scalar)
    requires
        t.finite(),
        0 <= laws::exact(t) <= one_in_units(),
    ensures
        ({
            let one = Scalar { bits: constants::ONE };
            let two = Scalar { bits: constants::TWO };
            let three = Scalar { bits: constants::THREE };
            let t2 = t.product(t);
            let t3 = t2.product(t);
            &&& two.product(t3).difference(three.product(t2)).sum(one).finite()
            &&& t3.difference(two.product(t2)).sum(t).finite()
            &&& two.negated().product(t3).sum(three.product(t2)).finite()
            &&& t3.difference(t2).finite()
            &&& cubic_arithmetic::weighed(
                weights_at(t),
                laws::exact(t),
                laws::exact(t2),
                laws::exact(t3),
                one_in_units(),
                grain(),
            )
        }),
{
    lemma_scales();
    curve_laws::lemma_constants();
    let one = Scalar { bits: constants::ONE };
    let two = Scalar { bits: constants::TWO };
    let three = Scalar { bits: constants::THREE };
    let t2 = t.product(t);
    let t3 = t2.product(t);
    lemma_powers_near(t);
    laws::negation_is_exact(two);
    lemma_multiple_near(two, t3, 2);
    lemma_multiple_near(three, t2, 3);
    lemma_multiple_near(two, t2, 2);
    lemma_multiple_near(two.negated(), t3, -2);
    let u1 = two.product(t3);
    let u2 = three.product(t2);
    let u3 = two.product(t2);
    let u4 = two.negated().product(t3);
    lemma_moderate(t);
    lemma_moderate(t2);
    lemma_moderate(t3);
    lemma_moderate(one);
    lemma_moderate(u1);
    lemma_moderate(u2);
    lemma_moderate(u3);
    lemma_moderate(u4);
    lemma_difference_near(u1, u2);
    lemma_moderate(u1.difference(u2));
    lemma_sum_near(u1.difference(u2), one);
    lemma_difference_near(t3, u3);
    lemma_moderate(t3.difference(u3));
    lemma_sum_near(t3.difference(u3), t);
    lemma_sum_near(u4, u2);
    lemma_difference_near(t3, t2);
}

/// A tangent, weighted and taken over its interval.
proof fn lemma_tangent_term(h: Scalar, i: Scalar, m: Scalar)
    requires
        h.finite(),
        -(one_in_units() + 28 * grain()) <= 4 * laws::exact(h) <= one_in_units() + 28 * grain(),
        bounds::bounded(i, 0),
        bounds::bounded(m, 13),
        1000 * (bounds::units(i) * bounds::units(m)) <= 3001 * (one_in_units() * one_in_units()),
    ensures
        ({
            let p = h.product(i).product(m);
            let bb = one_in_units() * one_in_units();
            &&& p.finite()
            &&& cubic_arithmetic::near(
                laws::exact(p) * bb,
                laws::exact(h) * (laws::exact(i) * laws::exact(m)),
                3 * (grain() * bb),
            )
        }),
{
    lemma_scales();
    lemma2_to64();
    lemma_pow2_adds(149, 13);
    let b = one_in_units();
    let bb = b * b;
    let y = h.product(i);
    let p = y.product(m);
    lemma_moderate(h);
    bounds::a_product_is_close(h, i, 2, 0);
    bounds::a_product_is_bounded(h, i, 2, 0);
    bounds::a_product_is_close(y, m, 2, 13);
    bounds::a_product_is_bounded(y, m, 2, 13);
    let uh = bounds::units(h) as int;
    let ui = bounds::units(i) as int;
    let um = bounds::units(m) as int;
    let up = bounds::units(p) as int;
    cubic_arithmetic::lemma_tangent_product(
        uh,
        ui,
        um,
        bounds::units(y) as int,
        up,
        b,
        grain(),
    );
    let eh = laws::exact(h);
    let ei = laws::exact(i);
    let em = laws::exact(m);
    let ep = laws::exact(p);
    let negative = p.value().negative;
    assert(negative == ((h.value().negative != i.value().negative) != m.value().negative));
    assert(ep * bb == if negative {
        -(up * bb)
    } else {
        up * bb
    }) by (nonlinear_arith)
        requires
            ep == if negative {
                -up
            } else {
                up
            },
    ;
    let uim = ui * um;
    let eim = ei * em;
    assert(eim == if i.value().negative != m.value().negative {
        -uim
    } else {
        uim
    }) by (nonlinear_arith)
        requires
            uim == ui * um,
            eim == ei * em,
            ei == ui || ei == -ui,
            em == um || em == -um,
            i.value().negative ==> ei == -ui,
            !i.value().negative ==> ei == ui,
            m.value().negative ==> em == -um,
            !m.value().negative ==> em == um,
    ;
    let whole = uh * uim;
    assert(eh * eim == if negative {
        -whole
    } else {
        whole
    }) by (nonlinear_arith)
        requires
            whole == uh * uim,
            h.value().negative ==> eh == -uh,
            !h.value().negative ==> eh == uh,
            i.value().negative != m.value().negative ==> eim == -uim,
            i.value().negative == m.value().negative ==> eim == uim,
            negative == ((h.value().negative != i.value().negative) != m.value().negative),
    ;
}

/// A limited tangent over its interval is not much more than three.
proof fn lemma_limited_product(i: Scalar, m: Scalar, d: int)
    requires
        -one_in_units() <= d <= one_in_units(),
        cubic_arithmetic::is_limited(
            laws::exact(i) * laws::exact(m),
            d,
            one_in_units(),
            32 * grain(),
        ),
    ensures
        1000 * (bounds::units(i) * bounds::units(m)) <= 3001 * (one_in_units() * one_in_units()),
{
    lemma_scales();
    let b = one_in_units();
    let w = 32 * grain();
    let size = bounds::absolute(d);
    let q = bounds::units(i) * bounds::units(m);
    let e = laws::exact(i) * laws::exact(m);
    assert(e == q || e == -q) by (nonlinear_arith)
        requires
            e == laws::exact(i) * laws::exact(m),
            q == bounds::units(i) * bounds::units(m),
            laws::exact(i) == bounds::units(i) || laws::exact(i) == -bounds::units(i),
            laws::exact(m) == bounds::units(m) || laws::exact(m) == -bounds::units(m),
    ;
    assert(q >= 0) by (nonlinear_arith)
        requires
            q == bounds::units(i) * bounds::units(m),
    ;
    assert(1000 * (3 * (b * size) + b * w) <= 3001 * (b * b)) by (nonlinear_arith)
        requires
            0 <= size <= b,
            b == 65536 * w,
            w >= 0,
    ;
    if d >= 0 {
        assert(b * d == b * size);
    } else {
        assert(b * -d == b * size);
    }
}

/// The cubic between two points stays between their values, but for what
/// rounding adds.
proof fn lemma_hermite(
    x: Scalar,
    start: Scalar,
    interval: Scalar,
    first: Scalar,
    second: Scalar,
    first_tangent: Scalar,
    second_tangent: Scalar,
)
    requires
        ({
            let t = x.difference(start).quotient(interval);
            &&& t.finite()
            &&& 0 <= laws::exact(t) <= one_in_units()
        }),
        bounds::bounded(interval, 0),
        bounds::bounded(first_tangent, 13),
        bounds::bounded(second_tangent, 13),
        first.finite(),
        second.finite(),
        0 <= laws::exact(first) <= one_in_units(),
        0 <= laws::exact(second) <= one_in_units(),
        cubic_arithmetic::is_limited(
            laws::exact(interval) * laws::exact(first_tangent),
            laws::exact(second) - laws::exact(first),
            one_in_units(),
            32 * grain(),
        ),
        cubic_arithmetic::is_limited(
            laws::exact(interval) * laws::exact(second_tangent),
            laws::exact(second) - laws::exact(first),
            one_in_units(),
            32 * grain(),
        ),
    ensures
        ({
            let value = curve::hermite(
                x,
                start,
                interval,
                first,
                second,
                first_tangent,
                second_tangent,
            );
            let v0 = laws::exact(first);
            let v1 = laws::exact(second);
            let q0 = laws::exact(interval) * laws::exact(first_tangent);
            let q1 = laws::exact(interval) * laws::exact(second_tangent);
            let t = laws::exact(x.difference(start).quotient(interval));
            let b = one_in_units();
            &&& value.finite()
            &&& cubic_arithmetic::near(
                laws::exact(value) * (b * b * b * b),
                v0 * (b * b * b * b) + cubic_arithmetic::rise(v1 - v0, q0, q1, t, b),
                76 * (grain() * (b * b * b * b)),
            )
            &&& v0 <= v1 ==> v0 - 128 * grain() <= laws::exact(value) <= v1 + 128 * grain()
            &&& v1 <= v0 ==> v1 - 128 * grain() <= laws::exact(value) <= v0 + 128 * grain()
        }),
{
    lemma_scales();
    let b = one_in_units();
    let g = grain();
    let one = Scalar { bits: constants::ONE };
    let two = Scalar { bits: constants::TWO };
    let three = Scalar { bits: constants::THREE };
    let t = x.difference(start).quotient(interval);
    let t2 = t.product(t);
    let t3 = t2.product(t);
    lemma_weights_near(t);
    let h = weights_at(t);
    cubic_arithmetic::lemma_weight_sizes(
        h,
        laws::exact(t),
        laws::exact(t2),
        laws::exact(t3),
        b,
        g,
    );
    let h00 = two.product(t3).difference(three.product(t2)).sum(one);
    let h10 = t3.difference(two.product(t2)).sum(t);
    let h01 = two.negated().product(t3).sum(three.product(t2));
    let h11 = t3.difference(t2);
    let d = laws::exact(second) - laws::exact(first);
    lemma_end_term(h00, first);
    lemma_end_term(h01, second);
    lemma_limited_product(interval, first_tangent, d);
    lemma_limited_product(interval, second_tangent, d);
    lemma_tangent_term(h10, interval, first_tangent);
    lemma_tangent_term(h11, interval, second_tangent);
    let q0 = laws::exact(interval) * laws::exact(first_tangent);
    let q1 = laws::exact(interval) * laws::exact(second_tangent);
    let p0 = h00.product(first);
    let p1 = h10.product(interval).product(first_tangent);
    let p2 = h01.product(second);
    let p3 = h11.product(interval).product(second_tangent);
    lemma_tangent_size(laws::exact(p1), laws::exact(h10), q0, interval, first_tangent);
    lemma_tangent_size(laws::exact(p3), laws::exact(h11), q1, interval, second_tangent);
    let p = Parts {
        first: laws::exact(p0),
        first_tangent: laws::exact(p1),
        second: laws::exact(p2),
        second_tangent: laws::exact(p3),
    };
    lemma_moderate(p0);
    lemma_moderate(p1);
    lemma_moderate(p2);
    lemma_moderate(p3);
    lemma_sum_near(p0, p1);
    lemma_moderate(p0.sum(p1));
    lemma_sum_near(p0.sum(p1), p2);
    lemma_moderate(p0.sum(p1).sum(p2));
    lemma_sum_near(p0.sum(p1).sum(p2), p3);
    let value = p0.sum(p1).sum(p2).sum(p3);
    assert(value == curve::hermite(
        x,
        start,
        interval,
        first,
        second,
        first_tangent,
        second_tangent,
    ));
    cubic_arithmetic::lemma_between(
        laws::exact(first),
        laws::exact(second),
        q0,
        q1,
        laws::exact(t),
        laws::exact(t2),
        laws::exact(t3),
        h,
        p,
        laws::exact(value),
        b,
        g,
        32 * g,
    );
}

/// The value of an end, weighted.
proof fn lemma_end_term(h: Scalar, v: Scalar)
    requires
        h.finite(),
        v.finite(),
        -(11 * grain()) <= laws::exact(h) <= one_in_units() + 11 * grain(),
        0 <= laws::exact(v) <= one_in_units(),
    ensures
        h.product(v).finite(),
        cubic_arithmetic::near(
            laws::exact(h.product(v)) * one_in_units(),
            laws::exact(h) * laws::exact(v),
            grain() * one_in_units(),
        ),
        -(12 * grain()) <= laws::exact(h.product(v)) <= one_in_units() + 12 * grain(),
{
    lemma_scales();
    let b = one_in_units();
    let g = grain();
    lemma_moderate(h);
    lemma_moderate(v);
    let uh = bounds::units(h) as int;
    let uv = bounds::units(v) as int;
    assert(8 * (uh * uv) <= 31 * (b * b)) by (nonlinear_arith)
        requires
            0 <= uh <= b + 11 * g,
            0 <= uv <= b,
            b == 0x20_0000 * g,
            g >= 0,
    ;
    lemma_product_near(h, v);
    let p = laws::exact(h.product(v));
    let x = laws::exact(h);
    let y = laws::exact(v);
    assert(-(11 * g * b) <= x * y <= (b + 11 * g) * b) by (nonlinear_arith)
        requires
            -(11 * g) <= x <= b + 11 * g,
            0 <= y <= b,
            g >= 0,
    ;
    assert(-(12 * g) <= p <= b + 12 * g) by (nonlinear_arith)
        requires
            -(g * b) <= p * b - x * y <= g * b,
            -(11 * g * b) <= x * y <= (b + 11 * g) * b,
            b > 0,
    ;
}

/// A tangent, weighted and taken over its interval, is less than one.
proof fn lemma_tangent_size(p: int, h: int, q: int, i: Scalar, m: Scalar)
    requires
        q == laws::exact(i) * laws::exact(m),
        1000 * (bounds::units(i) * bounds::units(m)) <= 3001 * (one_in_units() * one_in_units()),
        -(one_in_units() + 28 * grain()) <= 4 * h <= one_in_units() + 28 * grain(),
        cubic_arithmetic::near(
            p * (one_in_units() * one_in_units()),
            h * q,
            3 * (grain() * (one_in_units() * one_in_units())),
        ),
    ensures
        -(7 * one_in_units()) <= 8 * p <= 7 * one_in_units(),
{
    lemma_scales();
    let b = one_in_units();
    let g = grain();
    let bb = b * b;
    let size = bounds::units(i) * bounds::units(m);
    assert(q == size || q == -size) by (nonlinear_arith)
        requires
            q == laws::exact(i) * laws::exact(m),
            size == bounds::units(i) * bounds::units(m),
            laws::exact(i) == bounds::units(i) || laws::exact(i) == -bounds::units(i),
            laws::exact(m) == bounds::units(m) || laws::exact(m) == -bounds::units(m),
    ;
    assert(size >= 0) by (nonlinear_arith)
        requires
            size == bounds::units(i) * bounds::units(m),
    ;
    let limit = b + 28 * g;
    assert(-(3001 * (limit * bb)) <= 4000 * (h * q) <= 3001 * (limit * bb)) by (nonlinear_arith)
        requires
            -limit <= 4 * h <= limit,
            -(3001 * bb) <= 1000 * q <= 3001 * bb,
            bb >= 0,
            limit >= 0,
    ;
    assert(bb > 0) by (nonlinear_arith)
        requires
            bb == b * b,
            b > 0,
    ;
    assert(limit * bb == (b + 28 * g) * bb);
    assert(-(7 * b) <= 8 * p <= 7 * b) by (nonlinear_arith)
        requires
            -(3 * (g * bb)) <= p * bb - h * q <= 3 * (g * bb),
            -(3001 * (limit * bb)) <= 4000 * (h * q) <= 3001 * (limit * bb),
            limit == b + 28 * g,
            b == 0x20_0000 * g,
            g > 0,
            bb > 0,
    ;
}

/// Whether a tangent is flat, or rises where a slope does.
spec fn agrees(m: Scalar, slope: Scalar) -> bool {
    bounds::nought(m) || m.value().negative == slope.value().negative
}

/// Whether a tangent is at most three times a slope, or a little more.
spec fn is_moderate(m: Scalar, slope: Scalar, more: int) -> bool {
    bounds::units(m) * 8388608 <= bounds::units(slope) * (25165824 + more)
}

/// A slope that is not negligible has a size.
proof fn lemma_noticeable(slope: Scalar)
    requires
        slope.finite(),
        !values::negligible(slope),
    ensures
        bounds::sizeable(slope, -23),
        bounds::units(slope) >= 18446744073709551616,
        !bounds::nought(slope),
{
    lemma_scales();
    lemma2_to64();
    lemma2_to64_rest();
    lemma_pow2_adds(64, 62);
    lemma_pow2_pos(62);
    curve_laws::lemma_constants();
    let epsilon = Scalar { bits: constants::EPSILON };
    laws::order_is_exact(slope.size(), epsilon);
    assert(laws::exact(slope.size()) == bounds::units(slope));
    assert(pow2(126) >= 18446744073709551616) by (nonlinear_arith)
        requires
            pow2(126) == 18446744073709551616 * pow2(62),
            pow2(62) > 0,
    ;
    curve_laws::lemma_nought(slope);
}

/// One tangent of a segment that is limited.
proof fn lemma_one_tangent(first: Scalar, second: Scalar, slope: Scalar)
    requires
        bounds::bounded(first, 23),
        bounds::bounded(second, 23),
        bounds::bounded(slope, 10),
        !values::negligible(slope),
        agrees(first, slope),
    ensures
        ({
            let nine = Scalar { bits: constants::NINE };
            let three = Scalar { bits: constants::THREE };
            let a = first.quotient(slope);
            let c = second.quotient(slope);
            let magnitude = a.product(a).sum(c.product(c));
            let scale = three.quotient(magnitude.root());
            let scaled = scale.product(a).product(slope);
            &&& !nine.below(magnitude) ==> is_moderate(first, slope, 10)
            &&& nine.below(magnitude) ==> {
                &&& scaled.finite()
                &&& agrees(scaled, slope)
                &&& is_moderate(scaled, slope, 28)
                &&& bounds::nought(first) ==> bounds::nought(scaled)
                &&& bounds::units(scaled) * 8388608 <= bounds::units(first) * 8388615 + 25778192384
            }
        }),
{
    lemma_scales();
    lemma_noticeable(slope);
    curve_laws::lemma_constants();
    let nine = Scalar { bits: constants::NINE };
    let three = Scalar { bits: constants::THREE };
    let a = first.quotient(slope);
    let c = second.quotient(slope);
    bounds::a_quotient_is_close(first, slope, 23, -23);
    bounds::a_quotient_is_bounded(first, slope, 23, -23);
    bounds::a_quotient_is_bounded(second, slope, 23, -23);
    let sq = a.product(a);
    let sc = c.product(c);
    bounds::a_product_is_close(a, a, 46, 46);
    bounds::a_product_is_bounded(a, a, 46, 46);
    bounds::a_product_is_close(c, c, 46, 46);
    bounds::a_product_is_bounded(c, c, 46, 46);
    let magnitude = sq.sum(sc);
    bounds::a_sum_is_close(sq, sc, 92);
    bounds::a_sum_is_bounded(sq, sc, 92);
    let b = one_in_units();
    let m = laws::exact(magnitude);
    let uf = bounds::units(first) as int;
    let us = bounds::units(slope) as int;
    let ua = bounds::units(a) as int;
    let uq = bounds::units(sq) as int;
    assert(laws::exact(sq) == uq);
    assert(laws::exact(sc) >= 0);
    assert(uq * 8388607 <= m * 8388608 + 8388608);
    lemma_nine();
    laws::order_is_exact(nine, magnitude);
    if !nine.below(magnitude) {
        tangent_arithmetic::lemma_left(uf, us, ua, uq, m, b);
    } else {
        lemma_pow2_adds(149, 93);
        lemma_pow2_strictly_increases(93, 100);
        lemma_hundred();
        assert(m <= 1267650600228229401496703205376 * b) by (nonlinear_arith)
            requires
                m <= pow2(242),
                pow2(242) == b * pow2(93),
                pow2(93) < pow2(100),
                pow2(100) == 1267650600228229401496703205376,
                b > 0,
        ;
        lemma_scaled_tangent(first, slope, a, magnitude, uq);
    }
}

proof fn lemma_hundred()
    ensures
        pow2(100) == 1267650600228229401496703205376,
{
    lemma2_to64();
    lemma2_to64_rest();
    lemma_pow2_adds(50, 50);
}

proof fn lemma_nine()
    ensures
        laws::exact(Scalar { bits: constants::NINE }) == 9 * one_in_units(),
        laws::exact(Scalar { bits: constants::THREE }) == 3 * one_in_units(),
{
    curve_laws::lemma_constants();
    lemma2_to64();
    rounding::lemma_encode(129, 0x90_0000, 24);
    lemma_pow2_adds(20, 129);
    assert(0x90_0000 * pow2(129) == 9 * pow2(149));
}

/// A tangent that is scaled down.
proof fn lemma_scaled_tangent(first: Scalar, slope: Scalar, a: Scalar, magnitude: Scalar, uq: int)
    requires
        bounds::bounded(first, 23),
        bounds::bounded(slope, 10),
        !values::negligible(slope),
        agrees(first, slope),
        a == first.quotient(slope),
        magnitude.finite(),
        9 * one_in_units() < laws::exact(magnitude) <= 1267650600228229401496703205376 * one_in_units(),
        uq >= 0,
        bounds::units(a) * bounds::units(a) * 8388608 <= uq * one_in_units() * 8388609 + one_in_units() * 8388608,
        uq * 8388607 <= laws::exact(magnitude) * 8388608 + 8388608,
    ensures
        ({
            let scale = (Scalar { bits: constants::THREE }).quotient(magnitude.root());
            let scaled = scale.product(a).product(slope);
            &&& scaled.finite()
            &&& agrees(scaled, slope)
            &&& is_moderate(scaled, slope, 28)
            &&& bounds::nought(first) ==> bounds::nought(scaled)
            &&& bounds::units(scaled) * 8388608 <= bounds::units(first) * 8388615 + 25778192384
        }),
{
    lemma_scales();
    lemma_nine();
    lemma_noticeable(slope);
    let b = one_in_units();
    let three = Scalar { bits: constants::THREE };
    bounds::a_quotient_is_close(first, slope, 23, -23);
    bounds::a_quotient_is_bounded(first, slope, 23, -23);
    let m = laws::exact(magnitude);
    let root = magnitude.root();
    bounds::a_root_is_sizeable(magnitude);
    bounds::a_root_is_close(magnitude);
    assert(bounds::bounded(three, 2));
    let scale = three.quotient(root);
    bounds::a_quotient_is_close(three, root, 2, 0);
    bounds::a_quotient_is_bounded(three, root, 2, 0);
    let y = scale.product(a);
    bounds::a_product_is_close(scale, a, 2, 46);
    bounds::a_product_is_bounded(scale, a, 2, 46);
    let scaled = y.product(slope);
    bounds::a_product_is_close(y, slope, 48, 10);
    bounds::a_product_is_bounded(y, slope, 48, 10);
    let uf = bounds::units(first) as int;
    let us = bounds::units(slope) as int;
    let ua = bounds::units(a) as int;
    let ur = bounds::units(root) as int;
    let uc = bounds::units(scale) as int;
    let uy = bounds::units(y) as int;
    let u2 = bounds::units(scaled) as int;
    assert(4 * (m * b) * 70368744177664 <= ur * ur * 281475010265089);
    assert(uc * ur * 8388608 <= 3 * (b * b) * 8388609 + ur * 8388608) by {
        assert(3 * b * b == 3 * (b * b)) by (nonlinear_arith);
    }
    tangent_arithmetic::lemma_scaled_down(uf, us, ua, uq, m, ur, uc, uy, u2, b);
    if bounds::nought(first) {
        bounds::zero_divided_is_zero(first, slope);
        bounds::a_product_with_zero_is_zero(scale, a);
        bounds::a_product_with_zero_is_zero(y, slope);
    }
}

/// Sums do not depend on the order.
proof fn lemma_sum_commutes(a: Scalar, c: Scalar)
    requires
        a.finite(),
        c.finite(),
    ensures
        a.sum(c) == c.sum(a),
{
    reveal(Scalar::sum);
}

/// What limiting makes of a tangent.
spec fn follows(after: Scalar, before: Scalar, slope: Scalar) -> bool {
    &&& bounds::bounded(after, 12)
    &&& agrees(after, slope)
    &&& is_moderate(after, slope, 28)
    &&& bounds::nought(before) ==> bounds::nought(after)
    &&& bounds::units(after) * 8388608 <= bounds::units(before) * 8388615 + 25778192384
}

/// What is moderate stays so where more is allowed.
proof fn lemma_more_is_allowed(m: Scalar, slope: Scalar, less: int, more: int)
    requires
        0 <= less <= more,
        is_moderate(m, slope, less) || bounds::nought(m),
    ensures
        is_moderate(m, slope, more),
{
    curve_laws::lemma_nought(m);
    let s = bounds::units(slope) as int;
    assert(0 <= s * (25165824 + less) <= s * (25165824 + more)) by (nonlinear_arith)
        requires
            s >= 0,
            0 <= less <= more,
    ;
}

/// Limiting the two tangents of a segment.
proof fn lemma_limit(first: Scalar, second: Scalar, slope: Scalar)
    requires
        bounds::bounded(first, 23),
        bounds::bounded(second, 23),
        bounds::bounded(slope, 10),
        agrees(first, slope),
        agrees(second, slope),
    ensures
        follows(curve::limited(first, second, slope).0, first, slope),
        follows(curve::limited(first, second, slope).1, second, slope),
{
    lemma_scales();
    let zero = Scalar { bits: constants::ZERO };
    curve_laws::lemma_constants();
    curve_laws::lemma_nought(zero);
    let pair = curve::limited(first, second, slope);
    if values::negligible(slope) {
        lemma_more_is_allowed(zero, slope, 0, 28);
    } else {
        let a = first.quotient(slope);
        let c = second.quotient(slope);
        lemma_noticeable(slope);
        bounds::a_quotient_is_bounded(first, slope, 23, -23);
        bounds::a_quotient_is_bounded(second, slope, 23, -23);
        bounds::a_product_is_bounded(a, a, 46, 46);
        bounds::a_product_is_bounded(c, c, 46, 46);
        lemma_sum_commutes(a.product(a), c.product(c));
        lemma_one_tangent(first, second, slope);
        lemma_one_tangent(second, first, slope);
        if !(Scalar { bits: constants::NINE }).below(a.product(a).sum(c.product(c))) {
            lemma_more_is_allowed(first, slope, 10, 28);
            lemma_more_is_allowed(second, slope, 10, 28);
        }
        lemma_moderate_bound(pair.0, slope);
        lemma_moderate_bound(pair.1, slope);
    }
}

/// A tangent of at most three times a slope is bounded as the slope is.
proof fn lemma_moderate_bound(m: Scalar, slope: Scalar)
    requires
        m.finite(),
        bounds::bounded(slope, 10),
        is_moderate(m, slope, 28),
    ensures
        bounds::bounded(m, 12),
{
    lemma_scales();
}

/// A tangent that follows one that is moderate is moderate.
proof fn lemma_stays_moderate(after: Scalar, before: Scalar, slope: Scalar)
    requires
        is_moderate(before, slope, 28),
        bounds::nought(before) ==> bounds::nought(after),
        bounds::units(after) * 8388608 <= bounds::units(before) * 8388615 + 25778192384,
        bounds::units(slope) >= 18446744073709551616 || bounds::nought(before),
    ensures
        is_moderate(after, slope, 60),
{
    curve_laws::lemma_nought(after);
    curve_laws::lemma_nought(before);
    let a = bounds::units(after) as int;
    let f = bounds::units(before) as int;
    let s = bounds::units(slope) as int;
    assert(f * 8388608 <= s * 25165852);
    if !bounds::nought(before) {
        assert(a * 8388608 <= s * 25165884);
    }
}

/// The direction of a tangent between two segments.
proof fn lemma_joint_agrees(
    before: Scalar,
    after: Scalar,
    before_interval: Scalar,
    after_interval: Scalar,
)
    requires
        bounds::bounded(before, 10),
        bounds::bounded(after, 10),
        bounds::bounded(before_interval, 0),
        bounds::bounded(after_interval, 0),
        bounds::sizeable(before_interval, -10),
        bounds::sizeable(after_interval, -10),
        !before_interval.value().negative,
        !after_interval.value().negative,
    ensures
        agrees(curve::joint_tangent(before, after, before_interval, after_interval), before),
        agrees(curve::joint_tangent(before, after, before_interval, after_interval), after),
{
    let zero = Scalar { bits: constants::ZERO };
    let two = Scalar { bits: constants::TWO };
    curve_laws::lemma_constants();
    curve_laws::lemma_nought(zero);
    if !before.product(after).at_most(zero) {
        bounds::a_product_is_bounded(before, after, 10, 10);
        if bounds::nought(before) || bounds::nought(after) {
            bounds::a_product_with_zero_is_zero(before, after);
            assert(false);
        }
        assert(before.value().negative == after.value().negative) by {
            reveal(Scalar::product);
        }
        curve_laws::lemma_weight(after_interval, before_interval);
        curve_laws::lemma_weight(before_interval, after_interval);
        let before_weight = two.product(after_interval).sum(before_interval);
        let after_weight = after_interval.sum(two.product(before_interval));
        bounds::a_quotient_is_sizeable(before_weight, before, -10, 10);
        bounds::a_quotient_is_sizeable(after_weight, after, -10, 10);
        let first = before_weight.quotient(before);
        let second = after_weight.quotient(after);
        curve_laws::lemma_same_sign(first, second, -20);
        lemma_pow2_pos(129);
        curve_laws::lemma_nought(first);
        lemma_sum_sign(first, second);
        let total = before_weight.sum(after_weight);
        bounds::a_sum_is_bounded(before_weight, after_weight, 2);
        lemma_pow2_pos(139);
        curve_laws::lemma_nought(before_weight);
        lemma_sum_sign(before_weight, after_weight);
        let divisor = first.sum(second);
        assert(total.quotient(divisor).value().negative == before.value().negative
            || bounds::nought(total.quotient(divisor))) by {
            if divisor.finite() {
                bounds::a_quotient_is_bounded(total, divisor, 3, -20);
            }
            reveal(Scalar::quotient);
        }
    }
}

/// A sum of numbers of the same sign has that sign.
proof fn lemma_sum_sign(a: Scalar, c: Scalar)
    requires
        !a.nan(),
        !c.nan(),
        a.value().negative == c.value().negative,
        !bounds::nought(a),
    ensures
        a.sum(c).value().negative == a.value().negative,
{
    reveal(Scalar::sum);
    curve_laws::lemma_nought(a);
    curve_laws::lemma_nought(c);
}

/// The direction of a tangent before it is limited.
proof fn lemma_plain_agrees(curve: ToneCurve, point: int)
    requires
        curve.valid(),
        0 <= point < 5,
    ensures
        ({
            let tangent = curve::plain_tangent(curve.inputs(), curve.values(), point);
            &&& point > 0 ==> agrees(
                tangent,
                curve::slope(curve.inputs(), curve.values(), point - 1),
            )
            &&& point < 4 ==> agrees(
                tangent,
                curve::slope(curve.inputs(), curve.values(), point),
            )
        }),
{
    if 0 < point < 4 {
        curve_laws::lemma_slope(curve, point - 1);
        curve_laws::lemma_slope(curve, point);
        curve_laws::lemma_interval(curve, point - 1);
        curve_laws::lemma_interval(curve, point);
        lemma_joint_agrees(
            curve::slope(curve.inputs(), curve.values(), point - 1),
            curve::slope(curve.inputs(), curve.values(), point),
            curve::interval(curve.inputs(), point - 1),
            curve::interval(curve.inputs(), point),
        );
    }
}

/// What holds of the tangents while they are being limited: all rise where
/// the slopes beside them do, and those of the segments that are done are at
/// most three times the slope, or a little more.
spec fn settled(curve: ToneCurve, tangents: Seq<Scalar>, count: int) -> bool {
    let inputs = curve.inputs();
    let values = curve.values();
    &&& tangents.len() == 5
    &&& forall|i: int| 0 <= i < 5 ==> bounds::bounded(#[trigger] tangents[i], 23)
    &&& forall|i: int|
        0 < i < 5 ==> agrees(#[trigger] tangents[i], curve::slope(inputs, values, i - 1))
    &&& forall|i: int|
        0 <= i < 4 ==> agrees(#[trigger] tangents[i], curve::slope(inputs, values, i))
    &&& forall|k: int|
        0 <= k < count && k < 4 ==> is_moderate(
            #[trigger] tangents[k],
            curve::slope(inputs, values, k),
            60,
        )
    &&& forall|k: int|
        0 < k <= count && k < 5 ==> is_moderate(
            #[trigger] tangents[k],
            curve::slope(inputs, values, k - 1),
            60,
        )
    &&& 0 < count < 5 ==> {
        let slope = curve::slope(inputs, values, count - 1);
        &&& is_moderate(tangents[count], slope, 28)
        &&& values::negligible(slope) ==> bounds::nought(tangents[count])
    }
}

proof fn lemma_settled(curve: ToneCurve, count: nat)
    requires
        curve.valid(),
        count <= 4,
    ensures
        settled(
            curve,
            curve::tangents_after(curve.inputs(), curve.values(), count),
            count as int,
        ),
    decreases count,
{
    let inputs = curve.inputs();
    let values = curve.values();
    let tangents = curve::tangents_after(inputs, values, count);
    if count == 0 {
        assert forall|i: int| 0 <= i < 5 implies bounds::bounded(#[trigger] tangents[i], 23) by {
            curve_laws::lemma_plain_tangent(curve, i);
        }
        assert forall|i: int| 0 < i < 5 implies agrees(
            #[trigger] tangents[i],
            curve::slope(inputs, values, i - 1),
        ) by {
            lemma_plain_agrees(curve, i);
        }
        assert forall|i: int| 0 <= i < 4 implies agrees(
            #[trigger] tangents[i],
            curve::slope(inputs, values, i),
        ) by {
            lemma_plain_agrees(curve, i);
        }
    } else {
        let s = count - 1;
        lemma_settled(curve, s as nat);
        let before = curve::tangents_after(inputs, values, s as nat);
        let slope = curve::slope(inputs, values, s);
        let pair = curve::limited(before[s], before[s + 1], slope);
        curve_laws::lemma_slope(curve, s);
        lemma_limit(before[s], before[s + 1], slope);
        curve_laws::lemma_wider(pair.0, 12, 23);
        curve_laws::lemma_wider(pair.1, 12, 23);
        lemma_more_is_allowed(pair.0, slope, 28, 60);
        lemma_more_is_allowed(pair.1, slope, 28, 60);
        let zero = Scalar { bits: constants::ZERO };
        curve_laws::lemma_constants();
        curve_laws::lemma_nought(zero);
        if s > 0 {
            let earlier = curve::slope(inputs, values, s - 1);
            curve_laws::lemma_slope(curve, s - 1);
            if !values::negligible(earlier) {
                lemma_noticeable(earlier);
            }
            lemma_stays_moderate(pair.0, before[s], earlier);
        }
        assert(tangents =~= before.update(s, pair.0).update(s + 1, pair.1));
    }
}

/// The tangents of a segment, over its interval, rise at most three times as
/// far as the segment, or a little more.
proof fn lemma_segment_is_limited(curve: ToneCurve, s: int, point: int)
    requires
        curve.valid(),
        0 <= s < 4,
        point == s || point == s + 1,
    ensures
        ({
            let tangent = curve::tangents_after(curve.inputs(), curve.values(), 4)[point];
            let interval = curve::interval(curve.inputs(), s);
            &&& bounds::bounded(tangent, 13)
            &&& cubic_arithmetic::is_limited(
                laws::exact(interval) * laws::exact(tangent),
                laws::exact(curve.values()[s + 1]) - laws::exact(curve.values()[s]),
                one_in_units(),
                32 * grain(),
            )
        }),
{
    let inputs = curve.inputs();
    let values = curve.values();
    lemma_scales();
    lemma_settled(curve, 4);
    curve_laws::lemma_points(curve);
    curve_laws::lemma_slope(curve, s);
    curve_laws::lemma_interval(curve, s);
    let slope = curve::slope(inputs, values, s);
    let tangent = curve::tangents_after(inputs, values, 4)[point];
    let interval = curve::interval(inputs, s);
    assert(is_moderate(tangent, slope, 60));
    assert(agrees(tangent, slope));
    let b = one_in_units();
    let zero = Scalar { bits: constants::ZERO };
    let one = Scalar { bits: constants::ONE };
    curve_laws::lemma_constants();
    let v0 = values[s];
    let v1 = values[s + 1];
    laws::order_is_exact(zero, v0);
    laws::order_is_exact(v0, one);
    laws::order_is_exact(zero, v1);
    laws::order_is_exact(v1, one);
    assert(v0.within(zero, one) && v1.within(zero, one));
    lemma_moderate(v0);
    laws::negation_is_exact(v0);
    lemma_moderate(v0.negated());
    lemma_moderate(v1);
    let d = laws::exact(v1) - laws::exact(v0);
    let rise = v1.difference(v0);
    bounds::a_sum_is_close(v1, v0.negated(), 2);
    bounds::a_sum_is_bounded(v1, v0.negated(), 2);
    lemma_rise_sign(v1, v0);
    bounds::a_quotient_is_close(rise, interval, 3, -10);
    let size = bounds::absolute(d);
    let ud = bounds::units(rise) as int;
    let us = bounds::units(slope) as int;
    let ui = bounds::units(interval) as int;
    let um = bounds::units(tangent) as int;
    tangent_arithmetic::lemma_rise(size, ud, us, ui, um, b, 32 * grain());
    curve_laws::lemma_nought(tangent);
    curve_laws::lemma_nought(slope);
    let ei = laws::exact(interval);
    let em = laws::exact(tangent);
    assert(ei == ui);
    assert(um * ui == ui * um) by (nonlinear_arith);
    assert(ei * em == if em >= 0 {
        ui * um
    } else {
        -(ui * um)
    }) by (nonlinear_arith)
        requires
            ei == ui,
            em >= 0 ==> em == um,
            em < 0 ==> em == -um,
    ;
    assert(ui * um >= 0) by (nonlinear_arith)
        requires
            ui >= 0,
            um >= 0,
    ;
    assert(b * size == if d >= 0 {
        b * d
    } else {
        b * -d
    });
    lemma_tangent_bound(tangent, slope);
    assert(um * ui <= 3 * (b * size) + b * (32 * grain()));
    if bounds::nought(tangent) {
        assert(ei * em == 0) by (nonlinear_arith)
            requires
                em == 0,
        ;
    } else {
        if d == 0 {
            bounds::zero_divided_is_zero(rise, interval);
            assert(us == 0);
            assert(us * (25165824 + 60) == 0) by (nonlinear_arith)
                requires
                    us == 0,
            ;
            assert(false);
        }
        assert(slope.value().negative == rise.value().negative);
        assert(tangent.value().negative == (d < 0));
        assert(em < 0 <==> d < 0);
    }
}

/// A difference is as large as the rounding leaves it, and has the sign of the
/// exact one.
proof fn lemma_rise_sign(a: Scalar, c: Scalar)
    requires
        a.finite(),
        c.finite(),
        a.difference(c).finite(),
    ensures
        ({
            let d = laws::exact(a) - laws::exact(c);
            let rise = a.difference(c);
            &&& d < 0 ==> rise.value().negative
            &&& d > 0 ==> !rise.value().negative
            &&& d == 0 ==> bounds::nought(rise)
        }),
{
    laws::negation_is_exact(c);
    reveal(Scalar::sum);
}

/// A tangent of at most three times a slope is bounded as the slope is.
proof fn lemma_tangent_bound(m: Scalar, slope: Scalar)
    requires
        m.finite(),
        bounds::bounded(slope, 10),
        is_moderate(m, slope, 60),
    ensures
        bounds::bounded(m, 13),
{
    lemma_scales();
    lemma2_to64();
    lemma_pow2_adds(149, 13);
}

/// Where an input lies in its segment is a number from zero to one.
proof fn lemma_place(x: Scalar, start: Scalar, end: Scalar)
    requires
        x.finite(),
        start.finite(),
        end.finite(),
        laws::exact(start) <= laws::exact(x) <= laws::exact(end),
        end.difference(start).finite(),
        !end.difference(start).value().negative,
        !bounds::nought(end.difference(start)),
    ensures
        ({
            let t = x.difference(start).quotient(end.difference(start));
            &&& t.finite()
            &&& 0 <= laws::exact(t) <= one_in_units()
        }),
{
    lemma_scales();
    let zero = Scalar { bits: constants::ZERO };
    curve_laws::lemma_constants();
    let whole = end.difference(start);
    let part = x.difference(start);
    laws::negation_is_exact(start);
    laws::sum_is_nearest(x, start.negated());
    laws::sum_is_nearest(end, start.negated());
    laws::nearest_is_monotone(
        laws::exact(x) - laws::exact(start),
        laws::exact(end) - laws::exact(start),
    );
    laws::nearest_is_monotone(0, laws::exact(x) - laws::exact(start));
    laws::nearest_to_itself(zero);
    assert(part.finite());
    laws::order_is_exact(part, whole);
    laws::order_is_exact(zero, part);
    curve_laws::lemma_nought(part);
    bounds::a_share_is_at_most_one(part, whole);
    if part.value().negative {
        bounds::zero_divided_is_zero(part, whole);
        curve_laws::lemma_nought(part.quotient(whole));
    }
}

/// Where an input lies between the points beside it.
spec fn place(curve: ToneCurve, x: Scalar) -> Scalar {
    let s = curve.segment(x);
    x.difference(curve.inputs()[s]).quotient(curve::interval(curve.inputs(), s))
}

/// What a tangent rises over the interval of a segment.
spec fn tangent_rise(curve: ToneCurve, s: int, point: int) -> int {
    laws::exact(curve::interval(curve.inputs(), s)) * laws::exact(
        curve::tangents_after(curve.inputs(), curve.values(), 4)[point],
    )
}

/// The points of a valid curve are in order, and its values from zero to one.
proof fn lemma_ordered(curve: ToneCurve)
    requires
        curve.valid(),
    ensures
        forall|i: int|
            0 <= i < 5 ==> (#[trigger] curve.values()[i]).finite() && 0 <= laws::exact(
                curve.values()[i],
            ) <= one_in_units(),
        laws::exact(curve.values()[0]) == 0,
        laws::exact(curve.values()[4]) == one_in_units(),
{
    let zero = Scalar { bits: constants::ZERO };
    let one = Scalar { bits: constants::ONE };
    let values = curve.values();
    lemma_scales();
    curve_laws::lemma_constants();
    curve_laws::lemma_points(curve);
    assert forall|i: int| 0 <= i < 5 implies (#[trigger] values[i]).finite() && 0 <= laws::exact(
        values[i],
    ) <= one_in_units() by {
        assert(values[i].within(zero, one));
        laws::order_is_exact(zero, values[i]);
        laws::order_is_exact(values[i], one);
    }
}

/// The value of a curve as the cubic between two of its points.
proof fn lemma_on_the_curve(curve: ToneCurve, x: Scalar)
    requires
        curve.valid(),
        x.within(Scalar { bits: constants::ZERO }, Scalar { bits: constants::ONE }),
    ensures
        ({
            let s = curve.segment(x);
            let b = one_in_units();
            let v0 = laws::exact(curve.values()[s]);
            let v1 = laws::exact(curve.values()[s + 1]);
            let q0 = tangent_rise(curve, s, s);
            let q1 = tangent_rise(curve, s, s + 1);
            let value = curve.at(x);
            &&& laws::exact(curve.inputs()[s]) <= laws::exact(x)
            &&& place(curve, x).finite()
            &&& 0 <= laws::exact(place(curve, x)) <= b
            &&& cubic_arithmetic::is_limited(q0, v1 - v0, b, 32 * grain())
            &&& cubic_arithmetic::is_limited(q1, v1 - v0, b, 32 * grain())
            &&& value.finite()
            &&& cubic_arithmetic::near(
                laws::exact(value) * (b * b * b * b),
                v0 * (b * b * b * b) + cubic_arithmetic::rise(
                    v1 - v0,
                    q0,
                    q1,
                    laws::exact(place(curve, x)),
                    b,
                ),
                76 * (grain() * (b * b * b * b)),
            )
            &&& v0 <= v1 ==> v0 - 128 * grain() <= laws::exact(value) <= v1 + 128 * grain()
            &&& v1 <= v0 ==> v1 - 128 * grain() <= laws::exact(value) <= v0 + 128 * grain()
        }),
{
    let zero = Scalar { bits: constants::ZERO };
    let one = Scalar { bits: constants::ONE };
    let inputs = curve.inputs();
    let values = curve.values();
    let s = curve.segment(x);
    lemma_scales();
    curve_laws::lemma_constants();
    curve_laws::lemma_points(curve);
    curve_laws::lemma_interval(curve, s);
    lemma_ordered(curve);
    assert(inputs[s].within(zero, one) && inputs[s + 1].within(zero, one));
    laws::order_is_exact(zero, x);
    laws::order_is_exact(x, one);
    laws::order_is_exact(x, curve.shadow_input);
    laws::order_is_exact(x, curve.midtone_input);
    laws::order_is_exact(x, curve.highlight_input);
    assert(values[s].finite() && values[s + 1].finite());
    lemma_place(x, inputs[s], inputs[s + 1]);
    lemma_segment_is_limited(curve, s, s);
    lemma_segment_is_limited(curve, s, s + 1);
    let tangents = curve::tangents_after(inputs, values, 4);
    lemma_hermite(
        x,
        inputs[s],
        curve::interval(inputs, s),
        values[s],
        values[s + 1],
        tangents[s],
        tangents[s + 1],
    );
}

/// Between two of its points a curve stays between their values: it leaves
/// that range by no more than rounding adds, which is at most one part in
/// 16384 of the whole.
pub proof fn the_curve_stays_between_its_points(curve: ToneCurve, x: Scalar)
    requires
        curve.valid(),
        x.within(Scalar { bits: constants::ZERO }, Scalar { bits: constants::ONE }),
    ensures
        ({
            let s = curve.segment(x);
            let first = laws::exact(curve.values()[s]);
            let second = laws::exact(curve.values()[s + 1]);
            let value = laws::exact(curve.at(x));
            let one = laws::exact(Scalar { bits: constants::ONE });
            &&& curve.at(x).finite()
            &&& first <= second ==> 16384 * (first - value) <= one && 16384 * (value - second)
                <= one
            &&& second <= first ==> 16384 * (second - value) <= one && 16384 * (value - first)
                <= one
        }),
{
    lemma_scales();
    curve_laws::lemma_constants();
    lemma_on_the_curve(curve, x);
}

/// A later input lies no earlier in its segment.
proof fn lemma_later_place(curve: ToneCurve, x: Scalar, y: Scalar)
    requires
        curve.valid(),
        x.within(Scalar { bits: constants::ZERO }, Scalar { bits: constants::ONE }),
        y.within(Scalar { bits: constants::ZERO }, Scalar { bits: constants::ONE }),
        x.at_most(y),
        curve.segment(x) == curve.segment(y),
    ensures
        laws::exact(place(curve, x)) <= laws::exact(place(curve, y)),
{
    let s = curve.segment(x);
    let start = curve.inputs()[s];
    let zero = Scalar { bits: constants::ZERO };
    let one = Scalar { bits: constants::ONE };
    let interval = curve::interval(curve.inputs(), s);
    lemma_on_the_curve(curve, x);
    lemma_on_the_curve(curve, y);
    curve_laws::lemma_constants();
    curve_laws::lemma_points(curve);
    curve_laws::lemma_interval(curve, s);
    assert(start.within(zero, one));
    lemma_part(x, start);
    lemma_part(y, start);
    laws::negation_is_exact(start);
    laws::sum_is_monotone(x, y, start.negated());
    laws::order_is_exact(x.difference(start), y.difference(start));
    bounds::a_quotient_is_monotone(x.difference(start), y.difference(start), interval);
}

/// What lies behind a point is a number of at least nothing.
proof fn lemma_part(x: Scalar, start: Scalar)
    requires
        x.within(Scalar { bits: constants::ZERO }, Scalar { bits: constants::ONE }),
        start.within(Scalar { bits: constants::ZERO }, Scalar { bits: constants::ONE }),
        laws::exact(start) <= laws::exact(x),
    ensures
        x.difference(start).finite(),
        0 <= laws::exact(x.difference(start)),
{
    let zero = Scalar { bits: constants::ZERO };
    let one = Scalar { bits: constants::ONE };
    lemma_scales();
    curve_laws::lemma_constants();
    laws::order_is_exact(zero, x);
    laws::order_is_exact(x, one);
    laws::order_is_exact(zero, start);
    laws::order_is_exact(start, one);
    laws::negation_is_exact(start);
    lemma_moderate(x);
    lemma_moderate(start.negated());
    bounds::a_sum_is_bounded(x, start.negated(), 2);
    laws::sum_is_nearest(x, start.negated());
    laws::nearest_is_monotone(0, laws::exact(x) - laws::exact(start));
    laws::nearest_to_itself(zero);
    laws::order_is_exact(zero, x.difference(start));
}

/// Between two of its points a curve does not turn: it rises, or falls, all
/// the way from the one value to the other, but for what rounding adds, which
/// is at most one part in 8192 of the whole.
pub proof fn the_curve_does_not_turn_between_its_points(curve: ToneCurve, x: Scalar, y: Scalar)
    requires
        curve.valid(),
        x.within(Scalar { bits: constants::ZERO }, Scalar { bits: constants::ONE }),
        y.within(Scalar { bits: constants::ZERO }, Scalar { bits: constants::ONE }),
        x.at_most(y),
        curve.segment(x) == curve.segment(y),
    ensures
        ({
            let s = curve.segment(x);
            let first = laws::exact(curve.values()[s]);
            let second = laws::exact(curve.values()[s + 1]);
            let earlier = laws::exact(curve.at(x));
            let later = laws::exact(curve.at(y));
            let one = laws::exact(Scalar { bits: constants::ONE });
            &&& first <= second ==> 8192 * (earlier - later) <= one
            &&& second <= first ==> 8192 * (later - earlier) <= one
        }),
{
    let s = curve.segment(x);
    lemma_scales();
    curve_laws::lemma_constants();
    lemma_on_the_curve(curve, x);
    lemma_on_the_curve(curve, y);
    lemma_later_place(curve, x, y);
    cubic_arithmetic::lemma_goes_one_way(
        laws::exact(curve.values()[s]),
        laws::exact(curve.values()[s + 1]),
        tangent_rise(curve, s, s),
        tangent_rise(curve, s, s + 1),
        laws::exact(place(curve, x)),
        laws::exact(place(curve, y)),
        laws::exact(curve.at(x)),
        laws::exact(curve.at(y)),
        one_in_units(),
        grain(),
        32 * grain(),
    );
}

/// A curve whose points rise leaves no tone darker than one that was darker
/// before, but for what rounding adds, which is at most one part in 8192 of
/// the whole.
pub proof fn a_curve_of_rising_points_rises(curve: ToneCurve, x: Scalar, y: Scalar)
    requires
        curve.valid(),
        curve.shadows.at_most(curve.midtones),
        curve.midtones.at_most(curve.highlights),
        x.within(Scalar { bits: constants::ZERO }, Scalar { bits: constants::ONE }),
        y.within(Scalar { bits: constants::ZERO }, Scalar { bits: constants::ONE }),
        x.at_most(y),
    ensures
        8192 * (laws::exact(curve.at(x)) - laws::exact(curve.at(y))) <= laws::exact(
            Scalar { bits: constants::ONE },
        ),
{
    let values = curve.values();
    let s = curve.segment(x);
    let later = curve.segment(y);
    lemma_scales();
    curve_laws::lemma_constants();
    curve_laws::lemma_points(curve);
    lemma_ordered(curve);
    assert(values[1].finite() && values[2].finite() && values[3].finite());
    laws::order_is_exact(curve.shadows, curve.midtones);
    laws::order_is_exact(curve.midtones, curve.highlights);
    assert(laws::exact(values[0]) <= laws::exact(values[1]) <= laws::exact(values[2])
        <= laws::exact(values[3]) <= laws::exact(values[4]));
    if s == later {
        the_curve_does_not_turn_between_its_points(curve, x, y);
    } else {
        assert(s < later);
        lemma_on_the_curve(curve, x);
        lemma_on_the_curve(curve, y);
        assert(laws::exact(values[s + 1]) <= laws::exact(values[later]));
    }
}

/// A number divided by one is the same.
proof fn lemma_over_one(a: Scalar)
    requires
        a.finite(),
    ensures
        a.quotient(Scalar { bits: constants::ONE }) == a,
{
    let one = Scalar { bits: constants::ONE };
    curve_laws::lemma_constants();
    reveal(Scalar::quotient);
    let code = a.value().code as nat;
    let n = bounds::units(a);
    let p = pow2(149);
    assert(bounds::units(one) == p);
    rounding::lemma_held(code, 24);
    assert(n * p == (n * p) * 1) by (nonlinear_arith);
    rounding::lemma_equal_fractions(n, 1, (n * p) as nat, p, 24, code);
    rounding::lemma_nearest((n * p) as nat, p, 24, code);
}

/// The weight of two intervals is a number above zero.
proof fn lemma_weight_is_positive(first: Scalar, second: Scalar)
    requires
        bounds::bounded(first, 0),
        bounds::bounded(second, 0),
        !first.value().negative,
        !second.value().negative,
        !bounds::nought(second),
    ensures
        ({
            let weight = (Scalar { bits: constants::TWO }).product(first).sum(second);
            &&& bounds::bounded(weight, 2)
            &&& laws::exact(weight) > 0
        }),
        ({
            let weight = second.sum((Scalar { bits: constants::TWO }).product(first));
            &&& bounds::bounded(weight, 2)
            &&& laws::exact(weight) > 0
        }),
{
    let two = Scalar { bits: constants::TWO };
    let zero = Scalar { bits: constants::ZERO };
    let double = two.product(first);
    curve_laws::lemma_constants();
    lemma_scales();
    assert(bounds::bounded(two, 1));
    bounds::a_product_is_bounded(two, first, 1, 0);
    bounds::a_product_is_close(two, first, 1, 0);
    assert(bounds::bounded(second, 1));
    bounds::a_sum_is_bounded(double, second, 1);
    bounds::a_sum_is_bounded(second, double, 1);
    curve_laws::lemma_nought(second);
    laws::sum_is_nearest(double, second);
    laws::sum_is_nearest(second, double);
    laws::nearest_is_monotone(laws::exact(second), laws::exact(double) + laws::exact(second));
    laws::nearest_to_itself(second);
    laws::order_is_exact(second, double.sum(second));
    laws::order_is_exact(second, second.sum(double));
}

/// Where both slopes are one the tangent between them is one.
proof fn lemma_joint_of_ones(before: Scalar, after: Scalar)
    requires
        bounds::bounded(before, 0),
        bounds::bounded(after, 0),
        !before.value().negative,
        !after.value().negative,
        !bounds::nought(before),
        !bounds::nought(after),
    ensures
        ({
            let one = Scalar { bits: constants::ONE };
            curve::joint_tangent(one, one, before, after) == one
        }),
{
    let one = Scalar { bits: constants::ONE };
    let two = Scalar { bits: constants::TWO };
    let zero = Scalar { bits: constants::ZERO };
    curve_laws::lemma_constants();
    lemma_scales();
    bounds::a_product_with_one_is_the_same(one);
    laws::order_is_exact(one, zero);
    lemma_weight_is_positive(after, before);
    lemma_weight_is_positive(before, after);
    let first = two.product(after).sum(before);
    let second = after.sum(two.product(before));
    lemma_over_one(first);
    lemma_over_one(second);
    let all = first.sum(second);
    bounds::a_sum_is_bounded(first, second, 2);
    laws::sum_is_nearest(first, second);
    laws::nearest_is_monotone(laws::exact(first), laws::exact(first) + laws::exact(second));
    laws::nearest_to_itself(first);
    laws::order_is_exact(first, all);
    curve_laws::lemma_nought(all);
    bounds::a_quotient_with_itself_is_one(all);
}

/// Tangents of one on a slope of one are not limited.
proof fn lemma_ones_are_not_limited()
    ensures
        ({
            let one = Scalar { bits: constants::ONE };
            curve::limited(one, one, one) == (one, one)
        }),
{
    let one = Scalar { bits: constants::ONE };
    let two = Scalar { bits: constants::TWO };
    let nine = Scalar { bits: constants::NINE };
    curve_laws::lemma_constants();
    lemma_scales();
    lemma_over_one(one);
    bounds::a_product_with_one_is_the_same(one);
    bounds::an_exact_sum_is_kept(one, one, two);
    laws::order_is_exact(one.size(), Scalar { bits: constants::EPSILON });
    assert(one.size() == one);
    assert(!values::negligible(one)) by {
        lemma2_to64();
        lemma_pow2_strictly_increases(126, 149);
    }
    assert(!nine.below(one.sum(one))) by {
        laws::order_is_exact(nine, two);
    }
}

/// Whether the points of a curve lie on the diagonal.
pub open spec fn is_diagonal(curve: ToneCurve) -> bool {
    &&& curve.shadows == curve.shadow_input
    &&& curve.midtones == curve.midtone_input
    &&& curve.highlights == curve.highlight_input
}

/// The tangents of a curve whose points lie on the diagonal are one.
proof fn lemma_diagonal_tangents(curve: ToneCurve, count: nat)
    requires
        curve.valid(),
        is_diagonal(curve),
        count <= 4,
    ensures
        forall|p: int|
            0 <= p < 5 ==> #[trigger] curve::tangents_after(curve.inputs(), curve.values(), count)[p]
                == (Scalar { bits: constants::ONE }),
        curve::tangents_after(curve.inputs(), curve.values(), count).len() == 5,
    decreases count,
{
    let one = Scalar { bits: constants::ONE };
    let (inputs, values) = (curve.inputs(), curve.values());
    assert(inputs =~= values);
    assert forall|s: int| 0 <= s < 4 implies #[trigger] curve::slope(inputs, values, s) == one by {
        curve_laws::lemma_interval(curve, s);
        bounds::a_quotient_with_itself_is_one(curve::interval(inputs, s));
    }
    assert(curve::slope(inputs, values, 0) == one);
    assert(curve::slope(inputs, values, 1) == one);
    assert(curve::slope(inputs, values, 2) == one);
    assert(curve::slope(inputs, values, 3) == one);
    if count == 0 {
        assert forall|p: int| 0 <= p < 5 implies #[trigger] curve::tangents_after(
            inputs,
            values,
            0,
        )[p] == one by {
            if 0 < p < 4 {
                curve_laws::lemma_interval(curve, p - 1);
                curve_laws::lemma_interval(curve, p);
                lemma_joint_of_ones(
                    curve::interval(inputs, p - 1),
                    curve::interval(inputs, p),
                );
            }
            assert(curve::plain_tangent(inputs, values, p) == one);
        }
    } else {
        let segment = (count - 1) as nat;
        lemma_diagonal_tangents(curve, segment);
        let before = curve::tangents_after(inputs, values, segment);
        assert(before[segment as int] == one && before[(segment + 1) as int] == one);
        lemma_ones_are_not_limited();
    }
}

/// A cubic with the slope of the line between its ends is that line.
proof fn lemma_line(d: int, i: int, t: int, x: int, v0: int, value: int, b: int, g: int)
    requires
        b == 0x20_0000 * g,
        g > 0,
        0 <= t <= b,
        near_enough(i, d, g),
        -2 * (g * b) <= t * i - (x - v0) * b <= 2 * (g * b),
        cubic_arithmetic::near(
            value * (b * b * b * b),
            v0 * (b * b * b * b) + cubic_arithmetic::rise(d, i * b, i * b, t, b),
            76 * (g * (b * b * b * b)),
        ),
    ensures
        -80 * g <= value - x <= 80 * g,
{
    let b4 = b * b * b * b;
    let h01 = cubic_arithmetic::second_weight(t, b);
    let tb2 = t * b * b;
    let (h10, h11) = (
        cubic_arithmetic::first_tangent_weight(t, b),
        cubic_arithmetic::second_tangent_weight(t, b),
    );
    assert(h01 + h10 + h11 == tb2) by (nonlinear_arith)
        requires
            h01 == 3 * (t * t * b) - 2 * (t * t * t),
            h10 == t * t * t - 2 * (t * t * b) + t * b * b,
            h11 == t * t * t - t * t * b,
            tb2 == t * b * b,
    ;
    let e = d - i;
    let ib = i * b;
    assert(cubic_arithmetic::rise(d, ib, ib, t, b) == ib * tb2 + (e * b) * h01) by (nonlinear_arith)
        requires
            cubic_arithmetic::rise(d, ib, ib, t, b) == b * d * h01 + ib * h10 + ib * h11,
            h01 + h10 + h11 == tb2,
            e == d - i,
            ib == i * b,
    {
        assert(ib * h10 + ib * h11 == ib * (tb2 - h01));
        assert(ib * (tb2 - h01) == ib * tb2 - ib * h01);
        assert(b * d * h01 == (d * b) * h01);
        assert((d * b) * h01 - ib * h01 == (e * b) * h01);
    }
    let b3 = b * b * b;
    lemma_cubic_weight(t, b);
    assert(-(g * b4) <= (e * b) * h01 <= g * b4) by (nonlinear_arith)
        requires
            -g <= e <= g,
            0 <= h01 <= b3,
            b3 == b * b * b,
            b4 == b * b * b * b,
            b > 0,
            g > 0,
    {
        let eb = e * b;
        assert(-(g * b) <= eb <= g * b);
        assert(eb * h01 <= (g * b) * b3);
        assert(eb * h01 >= -((g * b) * b3));
        assert((g * b) * b3 == g * b4);
    }
    let ti = t * i;
    assert(ib * tb2 == ti * b3) by (nonlinear_arith)
        requires
            ib == i * b,
            tb2 == t * b * b,
            ti == t * i,
            b3 == b * b * b,
    ;
    let f = ti - (x - v0) * b;
    assert(ti * b3 == (x - v0) * b4 + f * b3) by (nonlinear_arith)
        requires
            f == ti - (x - v0) * b,
            b3 == b * b * b,
            b4 == b * b * b * b,
    ;
    assert(-2 * (g * b4) <= f * b3 <= 2 * (g * b4)) by (nonlinear_arith)
        requires
            -2 * (g * b) <= f <= 2 * (g * b),
            b3 == b * b * b,
            b4 == b * b * b * b,
            b > 0,
    {
        assert(b3 > 0);
        assert(f * b3 <= (2 * (g * b)) * b3);
        assert(f * b3 >= -((2 * (g * b)) * b3));
        assert((2 * (g * b)) * b3 == 2 * (g * b4));
    }
    let off = value - x;
    assert(value * b4 - v0 * b4 - (x - v0) * b4 == off * b4) by (nonlinear_arith)
        requires
            off == value - x,
    ;
    let gb4 = g * b4;
    assert(-79 * gb4 <= off * b4 <= 79 * gb4);
    assert(b4 > 0) by (nonlinear_arith)
        requires
            b4 == b * b * b * b,
            b > 0,
    ;
    assert(-79 * g <= off <= 79 * g) by (nonlinear_arith)
        requires
            -79 * gb4 <= off * b4 <= 79 * gb4,
            gb4 == g * b4,
            b4 > 0,
    ;
}

spec fn near_enough(i: int, d: int, g: int) -> bool {
    -g <= i - d <= g
}

proof fn lemma_cubic_weight(t: int, b: int)
    requires
        0 <= t <= b,
    ensures
        0 <= cubic_arithmetic::second_weight(t, b) <= b * b * b,
{
    let h = cubic_arithmetic::second_weight(t, b);
    let u = b - t;
    assert(h == t * t * (b + 2 * u)) by (nonlinear_arith)
        requires
            h == 3 * (t * t * b) - 2 * (t * t * t),
            u == b - t,
    ;
    assert(b * b * b - h == u * u * (b + 2 * t)) by (nonlinear_arith)
        requires
            h == 3 * (t * t * b) - 2 * (t * t * t),
            u == b - t,
    ;
    assert(t * t * (b + 2 * u) >= 0) by (nonlinear_arith)
        requires
            0 <= t <= b,
            u == b - t,
    {
        assert(t * t >= 0);
    }
    assert(u * u * (b + 2 * t) >= 0) by (nonlinear_arith)
        requires
            0 <= t <= b,
            u == b - t,
    {
        assert(u * u >= 0);
    }
}

/// A curve whose points lie on the diagonal leaves every tone as it is, but for
/// what rounding adds, which is at most one part in 16384 of the whole.
pub proof fn a_diagonal_curve_changes_nothing(curve: ToneCurve, x: Scalar)
    requires
        curve.valid(),
        is_diagonal(curve),
        x.within(Scalar { bits: constants::ZERO }, Scalar { bits: constants::ONE }),
    ensures
        curve.at(x).finite(),
        16384 * bounds::absolute(laws::exact(curve.at(x)) - laws::exact(x)) <= laws::exact(
            Scalar { bits: constants::ONE },
        ),
{
    let zero = Scalar { bits: constants::ZERO };
    let one = Scalar { bits: constants::ONE };
    let (inputs, values) = (curve.inputs(), curve.values());
    let s = curve.segment(x);
    let (b, g) = (one_in_units(), grain());
    lemma_scales();
    curve_laws::lemma_constants();
    curve_laws::lemma_points(curve);
    curve_laws::lemma_interval(curve, s);
    assert(inputs =~= values);
    assert(inputs[s].within(zero, one) && inputs[s + 1].within(zero, one));
    laws::order_is_exact(zero, inputs[s]);
    laws::order_is_exact(inputs[s], one);
    laws::order_is_exact(zero, inputs[s + 1]);
    laws::order_is_exact(inputs[s + 1], one);
    laws::order_is_exact(zero, x);
    laws::order_is_exact(x, one);
    lemma_on_the_curve(curve, x);
    lemma_diagonal_tangents(curve, 4);
    let interval = curve::interval(inputs, s);
    let tangents = curve::tangents_after(inputs, values, 4);
    assert(tangents[s] == one && tangents[s + 1] == one);
    let i = laws::exact(interval);
    let (v0, v1) = (laws::exact(inputs[s]), laws::exact(inputs[s + 1]));
    // The interval.
    laws::negation_is_exact(inputs[s]);
    lemma_moderate(inputs[s + 1]);
    lemma_moderate(inputs[s].negated());
    lemma_moderate(x);
    bounds::a_sum_is_close(inputs[s + 1], inputs[s].negated(), 2);
    bounds::a_sum_is_close(x, inputs[s].negated(), 2);
    // The place in it.
    let part = x.difference(inputs[s]);
    lemma_part(x, inputs[s]);
    nearness_laws::lemma_signed(part);
    nearness_laws::lemma_signed(interval);
    assert(laws::exact(part) <= b + g);
    assert(bounds::bounded(part, 1));
    nearness_laws::a_quotient_is_near(part, interval, 1, -10);
    let t = laws::exact(place(curve, x));
    let p = laws::exact(part);
    let (pb, bb, gb) = (p * b, b * b, g * b);
    assert(bounds::absolute(p * b) == pb && pb <= bb + gb && bb == 0x20_0000 * gb)
        by (nonlinear_arith)
        requires
            0 <= p <= b + g,
            pb == p * b,
            bb == b * b,
            gb == g * b,
            b == 0x20_0000 * g,
            g > 0,
    ;
    let f = p - (laws::exact(x) - v0);
    assert(pb - (laws::exact(x) - v0) * b == f * b) by (nonlinear_arith)
        requires
            pb == p * b,
            f == p - (laws::exact(x) - v0),
    ;
    assert(0x80_0000 * bounds::absolute(f * b) <= 2 * bb) by (nonlinear_arith)
        requires
            0x80_0000 * bounds::absolute(f) <= 2 * b,
            bb == b * b,
            b > 0,
    {
        assert(bounds::absolute(f * b) == bounds::absolute(f) * b);
    }
    assert(gb >= 0x1_0000_0000 * b) by (nonlinear_arith)
        requires
            gb == g * b,
            g >= 0x1_0000_0000,
            b > 0,
    ;
    lemma_line(v1 - v0, i, t, laws::exact(x), v0, laws::exact(curve.at(x)), b, g);
}

} // verus!
