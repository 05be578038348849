//! How near products and quotients of narrow numbers are to the exact ones.

use vstd::arithmetic::power2::*;
use vstd::prelude::*;

use crate::number::bounds;
use crate::number::laws;
use crate::number::rounding;
use crate::number::scalar::Scalar;

verus! {

/// A size that is close to a fraction differs from it by two parts in 2^23 and
/// two units at most.
proof fn lemma_close(m: nat, num: nat, den: nat)
    requires
        bounds::close(m, num, den),
    ensures
        0x40_0000 * bounds::absolute(m * den - num) <= num + 0x80_0000 * den,
{
    let md = m * den;
    assert(m * den * 0x80_0000 == 0x80_0000 * md && m * den * 0x80_0001 == 0x80_0001 * md)
        by (nonlinear_arith)
        requires
            md == m * den,
    ;
    assert(num * 0x80_0001 == 0x80_0001 * num && den * 0x80_0000 == 0x80_0000 * den)
        by (nonlinear_arith);
}

/// The exact value of a number from its size and its sign.
pub proof fn lemma_signed(a: Scalar)
    requires
        a.finite(),
    ensures
        laws::exact(a) == if a.value().negative {
            -(bounds::units(a) as int)
        } else {
            bounds::units(a) as int
        },
        bounds::absolute(laws::exact(a)) == bounds::units(a),
        bounds::nought(a) <==> bounds::units(a) == 0,
{
    rounding::lemma_zero_magnitude(24);
    if a.value().code > 0 {
        rounding::lemma_increasing(0, a.value().code as nat, 24);
    }
}

proof fn lemma_signs(x: int, y: int, ux: int, uy: int, negative: bool, other: bool)
    requires
        ux >= 0,
        uy >= 0,
        x == if negative {
            -ux
        } else {
            ux
        },
        y == if other {
            -uy
        } else {
            uy
        },
    ensures
        x * y == if negative != other {
            -(ux * uy)
        } else {
            ux * uy
        },
        bounds::absolute(x * y) == ux * uy,
{
    assert(ux * uy >= 0) by (nonlinear_arith)
        requires
            ux >= 0,
            uy >= 0,
    ;
    assert((-ux) * uy == -(ux * uy) && ux * (-uy) == -(ux * uy) && (-ux) * (-uy) == ux * uy)
        by (nonlinear_arith);
}

/// A product is near to the exact one.
pub proof fn a_product_is_near(a: Scalar, b: Scalar, j: int, k: int)
    requires
        bounds::bounded(a, j),
        bounds::bounded(b, k),
        -149 <= j,
        -149 <= k,
        -149 <= j + k <= 127,
    ensures
        a.product(b).finite(),
        bounds::bounded(a.product(b), j + k),
        0x40_0000 * bounds::absolute(
            laws::exact(a.product(b)) * pow2(149) - laws::exact(a) * laws::exact(b),
        ) <= bounds::absolute(laws::exact(a) * laws::exact(b)) + 0x80_0000 * pow2(149),
{
    let w = pow2(149);
    let product = a.product(b);
    bounds::a_product_is_close(a, b, j, k);
    bounds::a_product_is_bounded(a, b, j, k);
    lemma_signed(a);
    lemma_signed(b);
    lemma_signed(product);
    let (x, y, m) = (bounds::units(a), bounds::units(b), bounds::units(product));
    lemma_close(m, x * y, w);
    lemma_signs(
        laws::exact(a),
        laws::exact(b),
        x as int,
        y as int,
        a.value().negative,
        b.value().negative,
    );
    assert((-(m as int)) * w == -(m * w)) by (nonlinear_arith);
}

/// A quotient is near to the exact one.
pub proof fn a_quotient_is_near(a: Scalar, b: Scalar, j: int, k: int)
    requires
        bounds::bounded(a, j),
        bounds::sizeable(b, k),
        -149 <= j,
        -149 <= k,
        -149 <= j - k <= 127,
    ensures
        a.quotient(b).finite(),
        bounds::bounded(a.quotient(b), j - k),
        0x40_0000 * bounds::absolute(
            laws::exact(a.quotient(b)) * laws::exact(b) - laws::exact(a) * pow2(149),
        ) <= bounds::absolute(laws::exact(a) * pow2(149)) + 0x80_0000 * bounds::absolute(
            laws::exact(b),
        ),
        a.quotient(b).value().negative == (a.value().negative != b.value().negative),
{
    let w = pow2(149);
    let quotient = a.quotient(b);
    bounds::a_quotient_is_close(a, b, j, k);
    bounds::a_quotient_is_bounded(a, b, j, k);
    lemma_signed(a);
    lemma_signed(b);
    lemma_signed(quotient);
    let (x, y, m) = (bounds::units(a), bounds::units(b), bounds::units(quotient));
    lemma_close(m, x * w, y);
    lemma_signs(
        laws::exact(quotient),
        laws::exact(b),
        m as int,
        y as int,
        quotient.value().negative,
        b.value().negative,
    );
    lemma_signs(laws::exact(a), w as int, x as int, w as int, a.value().negative, false);
}

} // verus!
