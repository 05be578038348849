//! How close the results of wide arithmetic are to the exact ones.

use vstd::arithmetic::power2::*;
use vstd::prelude::*;

use crate::number::binary;
use crate::number::binary::Format;
use crate::number::bounds;
use crate::number::convert;
use crate::number::laws;
use crate::number::rounding;
use crate::number::scalar::Scalar;
use crate::number::wide::Wide;

verus! {

/// The exact value of a finite number, in units of the smallest positive one.
pub open spec fn exact(a: Wide) -> int {
    a.value().units(Format::Double)
}

/// How many units make one.
pub open spec fn one() -> int {
    pow2(1074) as int
}

/// Whether a number is finite and of moderate size.
pub open spec fn moderate(a: Wide) -> bool {
    a.finite() && bounds::absolute(exact(a)) <= pow2(1134)
}

/// The step above a code is one part in 2^52 of its size at most, or one unit.
proof fn lemma_step_is_small(code: nat)
    ensures
        ({
            let m = rounding::magnitude(code, 53);
            let s = pow2(rounding::exponent(code, 53));
            &&& rounding::magnitude(code + 1, 53) == m + s
            &&& s > 0
            &&& s == 1 || s * 0x10_0000_0000_0000 <= m
        }),
{
    lemma2_to64();
    lemma2_to64_rest();
    rounding::lemma_step(code, 53);
    rounding::lemma_decode(code, 53);
    lemma_pow2_pos(rounding::exponent(code, 53));
    if rounding::exponent(code, 53) > 0 {
        let m = rounding::magnitude(code, 53);
        let q = rounding::significand(code, 53);
        let s = pow2(rounding::exponent(code, 53));
        assert(s * 0x10_0000_0000_0000 <= m) by (nonlinear_arith)
            requires
                m == q * s,
                q >= 0x10_0000_0000_0000,
        ;
    }
}

/// Whether a size differs from a fraction by at most one part in 2^52 and one
/// unit.
pub open spec fn close(m: int, num: int, den: int) -> bool {
    &&& (m * den - num) * 0x10_0000_0000_0000 <= num + den * 0x10_0000_0000_0000
    &&& (num - m * den) * 0x10_0000_0000_0000 <= num + den * 0x10_0000_0000_0000
}

/// Rounding keeps close.
proof fn lemma_rounded_close(num: nat, den: nat)
    requires
        den > 0,
    ensures
        close(
            rounding::magnitude(rounding::nearest(num, den, 53), 53) as int,
            num as int,
            den as int,
        ),
{
    let code = rounding::nearest(num, den, 53);
    let m = rounding::magnitude(code, 53) as int;
    rounding::lemma_rounds(num, den, 53);
    rounding::lemma_zero_magnitude(53);
    lemma_step_is_small(code);
    let up = pow2(rounding::exponent(code, 53)) as int;
    let md = m * den;
    let du = den * up;
    assert(den * (m + (m + up)) == 2 * md + du) by (nonlinear_arith)
        requires
            md == m * den,
            du == den * up,
    ;
    // Half the step above is at most one part in 2^53, or one unit.
    assert(du == den || du * 0x10_0000_0000_0000 <= md) by (nonlinear_arith)
        requires
            up == 1 || up * 0x10_0000_0000_0000 <= m,
            du == den * up,
            md == m * den,
            den > 0,
    ;
    assert(2 * num <= 2 * md + du);
    assert(md >= 0) by (nonlinear_arith)
        requires
            md == m * den,
            m >= 0,
            den > 0,
    ;
    if code > 0 {
        let below = (code - 1) as nat;
        lemma_step_is_small(below);
        let lower = rounding::magnitude(below, 53) as int;
        let s = pow2(rounding::exponent(below, 53)) as int;
        let ds = den * s;
        let dl = den * lower;
        assert(md == dl + ds && den * (lower + m) == 2 * dl + ds) by (nonlinear_arith)
            requires
                md == m * den,
                m == lower + s,
                ds == den * s,
                dl == den * lower,
        ;
        assert(ds == den || ds * 0x10_0000_0000_0000 <= dl) by (nonlinear_arith)
            requires
                s == 1 || s * 0x10_0000_0000_0000 <= lower,
                ds == den * s,
                dl == den * lower,
                den > 0,
        ;
        assert(ds >= 0 && dl >= 0) by (nonlinear_arith)
            requires
                ds == den * s,
                dl == den * lower,
                s > 0,
                den > 0,
                lower >= 0,
        ;
        assert(2 * dl + ds <= 2 * num);
    }
    assert((num - md) * 0x10_0000_0000_0000 <= num + den * 0x10_0000_0000_0000);
}

/// A fraction of limited size is not rounded to infinity.
proof fn lemma_rounded_finite(num: nat, den: nat)
    requires
        den > 0,
        num <= den * pow2(1400),
    ensures
        rounding::nearest(num, den, 53) < 0x7ff0_0000_0000_0000,
{
    let code = rounding::nearest(num, den, 53);
    let limit: nat = 0x7ff0_0000_0000_0000;
    lemma_rounded_close(num, den);
    lemma2_to64();
    lemma2_to64_rest();
    rounding::lemma_encode(2046, 0x10_0000_0000_0000, 53);
    lemma_pow2_adds(1400, 646);
    lemma_pow2_pos(1400);
    lemma_pow2_adds(64, 582);
    lemma_pow2_pos(582);
    let m = rounding::magnitude(code, 53) as int;
    if code >= limit {
        if code > limit {
            rounding::lemma_increasing(limit, code, 53);
        }
        let p = pow2(1400) as int;
        let top = 0x10_0000_0000_0000 * pow2(2046);
        assert(pow2(2046) >= 0x1_0000_0000 * p) by (nonlinear_arith)
            requires
                pow2(2046) == pow2(1400) * pow2(646),
                p == pow2(1400),
                pow2(646) >= 0x1_0000_0000,
        ;
        assert(m >= 4 * p + 4);
        assert(false) by (nonlinear_arith)
            requires
                (m * den - num) * 0x10_0000_0000_0000 <= num + den * 0x10_0000_0000_0000,
                num <= den * p,
                m >= 4 * p + 4,
                den > 0,
                num >= 0,
        ;
    }
}

/// The bits of a result hold its value.
proof fn lemma_held_value(value: binary::Binary)
    requires
        value.code < 0x8000_0000_0000_0000,
    ensures
        Wide::of(value).value() == value,
{
}

/// A sum is close to the exact one.
pub proof fn a_sum_is_close(a: Wide, c: Wide)
    requires
        moderate(a),
        moderate(c),
    ensures
        ({
            let total = exact(a) + exact(c);
            let found = exact(a.sum(c));
            &&& a.sum(c).finite()
            &&& (found - total) * 0x10_0000_0000_0000 <= bounds::absolute(total)
                + 0x10_0000_0000_0000
            &&& (total - found) * 0x10_0000_0000_0000 <= bounds::absolute(total)
                + 0x10_0000_0000_0000
        }),
{
    reveal(Wide::sum);
    rounding::lemma_zero_magnitude(53);
    let total = exact(a) + exact(c);
    let size = bounds::absolute(total) as nat;
    lemma_pow2_unfold(1135);
    lemma_pow2_strictly_increases(1135, 1400);
    lemma_rounded_close(size, 1);
    lemma_rounded_finite(size, 1);
    lemma_held_value(Format::Double.sum(a.value(), c.value()));
}

/// Negation turns the exact value round.
pub proof fn negation_is_exact(a: Wide)
    ensures
        exact(a.negated()) == -exact(a),
        a.finite() ==> a.negated().finite(),
        a.nan() <==> a.negated().nan(),
{
}

/// A difference is close to the exact one.
pub proof fn a_difference_is_close(a: Wide, c: Wide)
    requires
        moderate(a),
        moderate(c),
    ensures
        ({
            let total = exact(a) - exact(c);
            let found = exact(a.difference(c));
            &&& a.difference(c).finite()
            &&& (found - total) * 0x10_0000_0000_0000 <= bounds::absolute(total)
                + 0x10_0000_0000_0000
            &&& (total - found) * 0x10_0000_0000_0000 <= bounds::absolute(total)
                + 0x10_0000_0000_0000
        }),
{
    negation_is_exact(c);
    a_sum_is_close(a, c.negated());
}

/// A product is close to the exact one.
pub proof fn a_product_is_close(a: Wide, c: Wide)
    requires
        moderate(a),
        moderate(c),
    ensures
        ({
            let xy = exact(a) * exact(c);
            let found = exact(a.product(c)) * one();
            &&& a.product(c).finite()
            &&& (found - xy) * 0x10_0000_0000_0000 <= bounds::absolute(xy) + one()
                * 0x10_0000_0000_0000
            &&& (xy - found) * 0x10_0000_0000_0000 <= bounds::absolute(xy) + one()
                * 0x10_0000_0000_0000
        }),
{
    reveal(Wide::product);
    let x = a.value().size(Format::Double);
    let y = c.value().size(Format::Double);
    let b = pow2(1074);
    lemma_pow2_pos(1074);
    lemma_pow2_adds(1134, 1134);
    lemma_pow2_adds(1074, 1400);
    lemma_pow2_strictly_increases(2268, 2474);
    assert(x * y <= b * pow2(1400)) by (nonlinear_arith)
        requires
            x <= pow2(1134),
            y <= pow2(1134),
            pow2(1134) * pow2(1134) <= b * pow2(1400),
    ;
    lemma_rounded_close(x * y, b);
    lemma_rounded_finite(x * y, b);
    let result = Format::Double.product(a.value(), c.value());
    lemma_held_value(result);
    let m = result.size(Format::Double) as int;
    lemma_signed_product(exact(a), exact(c), x as int, y as int);
    let f = exact(a.product(c));
    assert(f * one() == if result.negative {
        -(m * b)
    } else {
        m * b
    }) by (nonlinear_arith)
        requires
            f == if result.negative {
                -m
            } else {
                m
            },
            one() == b,
    ;
}

proof fn lemma_signed_product(x: int, y: int, ux: int, uy: int)
    requires
        x == ux || x == -ux,
        y == uy || y == -uy,
        ux >= 0,
        uy >= 0,
    ensures
        bounds::absolute(x * y) == ux * uy,
        x == ux && y == uy ==> x * y == ux * uy,
        x == -ux && y == uy ==> x * y == -(ux * uy),
        x == ux && y == -uy ==> x * y == -(ux * uy),
        x == -ux && y == -uy ==> x * y == ux * uy,
{
    assert(ux * uy >= 0) by (nonlinear_arith)
        requires
            ux >= 0,
            uy >= 0,
    ;
    assert(-ux * uy == -(ux * uy) && ux * -uy == -(ux * uy) && -ux * -uy == ux * uy)
        by (nonlinear_arith);
}

/// A quotient is close to the exact one.
pub proof fn a_quotient_is_close(a: Wide, c: Wide)
    requires
        moderate(a),
        moderate(c),
        bounds::absolute(exact(c)) * pow2(200) >= one(),
    ensures
        ({
            let xb = exact(a) * one();
            let found = exact(a.quotient(c)) * exact(c);
            let y = bounds::absolute(exact(c));
            &&& a.quotient(c).finite()
            &&& (found - xb) * 0x10_0000_0000_0000 <= bounds::absolute(xb) + y
                * 0x10_0000_0000_0000
            &&& (xb - found) * 0x10_0000_0000_0000 <= bounds::absolute(xb) + y
                * 0x10_0000_0000_0000
        }),
{
    reveal(Wide::quotient);
    rounding::lemma_zero_magnitude(53);
    let x = a.value().size(Format::Double);
    let y = c.value().size(Format::Double);
    let b = pow2(1074);
    lemma_pow2_pos(1074);
    lemma_pow2_pos(200);
    assert(y > 0) by (nonlinear_arith)
        requires
            y * pow2(200) >= b,
            b > 0,
            y >= 0,
    ;
    lemma_pow2_adds(1134, 200);
    lemma_pow2_strictly_increases(1334, 1400);
    assert(x * b <= y * pow2(1400)) by (nonlinear_arith)
        requires
            x <= pow2(1134),
            b <= y * pow2(200),
            pow2(1134) * pow2(200) <= pow2(1400),
            y > 0,
    {
        assert(x * b <= pow2(1134) * (y * pow2(200)));
        assert(pow2(1134) * (y * pow2(200)) == y * (pow2(1134) * pow2(200)));
    }
    lemma_rounded_close(x * b, y);
    lemma_rounded_finite(x * b, y);
    let result = Format::Double.quotient(a.value(), c.value());
    lemma_held_value(result);
    let m = result.size(Format::Double) as int;
    lemma_signed_product(exact(a), b as int, x as int, b as int);
    lemma_signed_product(exact(a.quotient(c)), exact(c), m, y as int);
}

/// Numbers are ordered as their exact values are.
pub proof fn order_is_exact(a: Wide, c: Wide)
    requires
        a.finite(),
        c.finite(),
    ensures
        a.below(c) <==> exact(a) < exact(c),
        a.at_most(c) <==> exact(a) <= exact(c),
{
    binary::rank_orders_units(a.value(), c.value(), Format::Double);
}

/// Widening is close to the exact value, in the smaller units.
pub proof fn widening_is_close(a: Scalar)
    requires
        a.finite(),
        bounds::absolute(laws::exact(a)) <= pow2(160),
    ensures
        a.widened().finite(),
        ({
            let n = laws::exact(a) * pow2(925);
            let found = exact(a.widened());
            &&& (found - n) * 0x10_0000_0000_0000 <= bounds::absolute(n) + 0x10_0000_0000_0000
            &&& (n - found) * 0x10_0000_0000_0000 <= bounds::absolute(n) + 0x10_0000_0000_0000
        }),
{
    let size = a.value().size(Format::Single);
    let p = pow2(925);
    let n = size * p;
    lemma_pow2_adds(160, 925);
    lemma_pow2_strictly_increases(1085, 1400);
    lemma_pow2_pos(925);
    assert(0 <= n <= pow2(160) * p) by (nonlinear_arith)
        requires
            n == size * p,
            size <= pow2(160),
            p > 0,
    ;
    assert((-size) * p == -(size * p)) by (nonlinear_arith);
    lemma_rounded_close(n as nat, 1);
    lemma_rounded_finite(n as nat, 1);
    lemma_held_value(convert::widened(a.value()));
}

/// A product of numbers that are not negative is not negative.
pub proof fn a_product_keeps_its_sign(a: Wide, c: Wide)
    requires
        a.finite(),
        c.finite(),
        exact(a) >= 0,
        exact(c) >= 0,
    ensures
        exact(a.product(c)) >= 0,
{
    reveal(Wide::product);
    rounding::lemma_zero_magnitude(53);
    let (x, y) = (
        a.value().size(Format::Double),
        c.value().size(Format::Double),
    );
    if a.value().negative != c.value().negative {
        assert(x == 0 || y == 0);
        assert(x * y == 0) by (nonlinear_arith)
            requires
                x == 0 || y == 0,
        ;
        lemma_pow2_pos(1074);
        rounding::lemma_zero_fraction(pow2(1074), 53);
        rounding::lemma_nearest(0, pow2(1074), 53, 0);
    }
}

} // verus!
