//! What holds of the arithmetic as a whole.

use vstd::prelude::*;

use crate::number::binary;
use crate::number::binary::{Binary, Format};
use crate::number::constants;
use crate::number::rounding;
use crate::number::scalar::Scalar;

verus! {

/// The exact value of a finite number, in units of the smallest positive one.
pub open spec fn exact(a: Scalar) -> int {
    a.value().units(Format::Single)
}

/// The number nearest to a value in units.
pub open spec fn nearest_to(units: int) -> Binary {
    Format::Single.rounded(units < 0, binary::magnitude_of(units), 1)
}

/// The bits of a number and its sign and magnitude say the same.
pub proof fn bits_hold_the_value(value: Binary)
    requires
        value.code < 0x8000_0000,
    ensures
        Scalar::of(value).value() == value,
{
}

/// A sum of finite numbers is the number nearest to the exact sum.
pub proof fn sum_is_nearest(a: Scalar, b: Scalar)
    requires
        a.finite(),
        b.finite(),
    ensures
        !a.sum(b).nan(),
        a.sum(b).value().rank() == nearest_to(exact(a) + exact(b)).rank(),
{
    reveal(Scalar::sum);
    let total = exact(a) + exact(b);
    if total == 0 {
        rounding::lemma_zero_fraction(1, 24);
        rounding::lemma_nearest(0, 1, 24, 0);
    }
}

/// A larger exact value has a nearest number that is at least as large.
pub proof fn nearest_is_monotone(low: int, high: int)
    requires
        low <= high,
    ensures
        nearest_to(low).rank() <= nearest_to(high).rank(),
{
    if low >= 0 {
        rounding::rounding_is_monotone(low as nat, 1, high as nat, 1, 24);
    } else if high < 0 {
        rounding::rounding_is_monotone((-high) as nat, 1, (-low) as nat, 1, 24);
    }
}

/// A finite number is the nearest one to its own exact value.
pub proof fn nearest_to_itself(a: Scalar)
    requires
        a.finite(),
    ensures
        nearest_to(exact(a)).rank() == a.value().rank(),
{
    let code = a.value().code as nat;
    rounding::lemma_held(code, 24);
    rounding::lemma_nearest(a.value().size(Format::Single), 1, 24, code);
    rounding::lemma_zero_magnitude(24);
    if code > 0 {
        rounding::lemma_increasing(0, code, 24);
    }
}

/// Numbers are ordered as their exact values are.
pub proof fn order_is_exact(a: Scalar, b: Scalar)
    requires
        a.finite(),
        b.finite(),
    ensures
        a.below(b) <==> exact(a) < exact(b),
        a.at_most(b) <==> exact(a) <= exact(b),
        a.same(b) <==> exact(a) == exact(b),
{
    binary::rank_orders_units(a.value(), b.value(), Format::Single);
}

/// Negation turns the exact value round.
pub proof fn negation_is_exact(a: Scalar)
    ensures
        exact(a.negated()) == -exact(a),
        a.finite() ==> a.negated().finite(),
        a.nan() <==> a.negated().nan(),
        a.negated().value().rank() == -a.value().rank(),
{
}

/// A difference has the sign that the order of its operands gives it.
pub proof fn difference_has_the_sign_of_the_order(a: Scalar, b: Scalar)
    requires
        a.finite(),
        b.finite(),
    ensures
        !a.difference(b).nan(),
        b.at_most(a) ==> (Scalar { bits: constants::ZERO }).at_most(a.difference(b)),
        a.at_most(b) ==> a.difference(b).at_most(Scalar { bits: constants::ZERO }),
{
    negation_is_exact(b);
    sum_is_nearest(a, b.negated());
    order_is_exact(a, b);
    order_is_exact(b, a);
    let gap = exact(a) - exact(b);
    let zero = Scalar { bits: constants::ZERO };
    nearest_to_itself(zero);
    rounding::lemma_zero_magnitude(24);
    if gap >= 0 {
        nearest_is_monotone(0, gap);
    } else {
        nearest_is_monotone(gap, 0);
    }
    if gap == 0 {
        nearest_is_monotone(gap, 0);
    }
}

/// Adding the same finite number keeps the order.
pub proof fn sum_is_monotone(a: Scalar, b: Scalar, c: Scalar)
    requires
        a.finite(),
        b.finite(),
        c.finite(),
        a.at_most(b),
    ensures
        a.sum(c).at_most(b.sum(c)),
{
    sum_is_nearest(a, c);
    sum_is_nearest(b, c);
    order_is_exact(a, b);
    nearest_is_monotone(exact(a) + exact(c), exact(b) + exact(c));
}

/// A finite number less itself is nothing.
pub proof fn difference_with_itself_is_zero(a: Scalar)
    requires
        a.finite(),
    ensures
        a.difference(a) == (Scalar { bits: constants::ZERO }),
{
    reveal(Scalar::sum);
    negation_is_exact(a);
}

} // verus!
