//! Integers among the numbers: which are held exactly, how quotients compare
//! with them, and what is rounded to them.

use vstd::arithmetic::div_mod::*;
use vstd::arithmetic::power2::*;
use vstd::prelude::*;

use crate::number::binary::Format;
use crate::number::bounds;
use crate::number::convert;
use crate::number::laws;
use crate::number::rounding;
use crate::number::scalar::Scalar;
use crate::number::wide::Wide;
use crate::number::wide_bounds;

verus! {

/// A code that holds an integer times a power of two.
proof fn lemma_scaled(q: nat, k: nat, p: nat) -> (code: nat)
    requires
        p >= 2,
        q < 2 * rounding::leading(p),
    ensures
        rounding::magnitude(code, p) == q * pow2(k),
        code < (k + 2) * rounding::leading(p),
    decreases k,
{
    let h = rounding::leading(p);
    lemma_pow2_pos((p - 1) as nat);
    if k == 0 || q >= h {
        rounding::lemma_encode(k, q, p);
        assert(k * h + q < (k + 2) * h) by (nonlinear_arith)
            requires
                q < 2 * h,
        ;
        (k * h + q) as nat
    } else {
        let code = lemma_scaled(2 * q, (k - 1) as nat, p);
        lemma_pow2_unfold(k);
        let below = pow2((k - 1) as nat);
        assert((2 * q) * below == q * (2 * below)) by (nonlinear_arith);
        assert((k + 1) * h <= (k + 2) * h) by (nonlinear_arith)
            requires
                h > 0,
        ;
        code
    }
}

/// Integers of 24 bits are numbers.
pub proof fn a_small_integer_is_exact(n: int)
    requires
        0 <= n < 0x100_0000,
    ensures
        Scalar::integer(n).finite(),
        !Scalar::integer(n).value().negative,
        laws::exact(Scalar::integer(n)) == n * pow2(149),
{
    lemma2_to64();
    let code = lemma_scaled(n as nat, 149, 24);
    rounding::lemma_held(code, 24);
    rounding::lemma_nearest((n * pow2(149)) as nat, 1, 24, code);
}

/// Integers of 53 bits are wide numbers.
pub proof fn an_integer_is_exact(n: int)
    requires
        0 <= n < 0x20_0000_0000_0000,
    ensures
        Wide::integer(n).finite(),
        !Wide::integer(n).value().negative,
        wide_bounds::exact(Wide::integer(n)) == n * wide_bounds::one(),
{
    lemma2_to64();
    lemma2_to64_rest();
    let code = lemma_scaled(n as nat, 1074, 53);
    rounding::lemma_held(code, 53);
    rounding::lemma_nearest((n * pow2(1074)) as nat, 1, 53, code);
}

/// Widening keeps the value.
pub proof fn widening_is_exact(a: Scalar)
    requires
        a.finite(),
    ensures
        a.widened().finite(),
        a.widened().value().negative == a.value().negative,
        wide_bounds::exact(a.widened()) == laws::exact(a) * pow2(925),
{
    lemma2_to64();
    lemma2_to64_rest();
    let single = a.value().code as nat;
    let q = rounding::significand(single, 24);
    let k = rounding::exponent(single, 24);
    rounding::lemma_decode(single, 24);
    assert(k <= 254);
    let code = lemma_scaled(q, k + 925, 53);
    lemma_pow2_adds(k, 925);
    let size = a.value().size(Format::Single);
    assert(q * (pow2(k) * pow2(925)) == size * pow2(925)) by (nonlinear_arith)
        requires
            size == q * pow2(k),
    ;
    assert((k + 927) * 0x10_0000_0000_0000 <= 1181 * 0x10_0000_0000_0000);
    rounding::lemma_held(code, 53);
    rounding::lemma_nearest((size * pow2(925)) as nat, 1, 53, code);
    assert((-size) * pow2(925) == -(size * pow2(925))) by (nonlinear_arith);
}

/// A number compares with a quotient as it does with the exact one.
pub proof fn a_quotient_compares(a: Scalar, b: Scalar, c: Scalar)
    requires
        a.finite(),
        b.finite(),
        c.finite(),
        !a.value().negative,
        !b.value().negative,
        !c.value().negative,
        !bounds::nought(b),
    ensures
        !a.quotient(b).value().negative,
        !a.quotient(b).nan(),
        laws::exact(c) * laws::exact(b) <= laws::exact(a) * pow2(149) ==> c.at_most(a.quotient(b)),
        laws::exact(a) * pow2(149) <= laws::exact(c) * laws::exact(b) ==> a.quotient(b).at_most(c),
{
    reveal(Scalar::quotient);
    rounding::lemma_zero_magnitude(24);
    rounding::lemma_increasing(0, b.value().code as nat, 24);
    let num = (bounds::units(a) * pow2(149)) as nat;
    let den = bounds::units(b);
    let size = bounds::units(c);
    let code = c.value().code as nat;
    rounding::lemma_held(code, 24);
    rounding::lemma_nearest(size, 1, 24, code);
    if size * den <= num {
        rounding::rounding_is_monotone(size, 1, num, den, 24);
    }
    if num <= size * den {
        rounding::rounding_is_monotone(num, den, size, 1, 24);
    }
}

/// A wide number compares with a quotient as it does with the exact one.
pub proof fn a_wide_quotient_compares(a: Wide, b: Wide, c: Wide)
    requires
        a.finite(),
        b.finite(),
        c.finite(),
        !a.value().negative,
        !b.value().negative,
        !c.value().negative,
        b.value().code != 0,
    ensures
        !a.quotient(b).value().negative,
        !a.quotient(b).nan(),
        wide_bounds::exact(c) * wide_bounds::exact(b) <= wide_bounds::exact(a) * wide_bounds::one()
            ==> c.at_most(a.quotient(b)),
        wide_bounds::exact(a) * wide_bounds::one() <= wide_bounds::exact(c) * wide_bounds::exact(b)
            ==> a.quotient(b).at_most(c),
{
    reveal(Wide::quotient);
    rounding::lemma_zero_magnitude(53);
    rounding::lemma_increasing(0, b.value().code as nat, 53);
    let num = (a.value().size(Format::Double) * pow2(1074)) as nat;
    let den = b.value().size(Format::Double);
    let size = c.value().size(Format::Double);
    let code = c.value().code as nat;
    rounding::lemma_held(code, 53);
    rounding::lemma_nearest(size, 1, 53, code);
    if size * den <= num {
        rounding::rounding_is_monotone(size, 1, num, den, 53);
    }
    if num <= size * den {
        rounding::rounding_is_monotone(num, den, size, 1, 53);
    }
}

/// The integers round a number.
pub proof fn integers_round_a_number(a: Wide)
    requires
        a.finite(),
    ensures
        ({
            let exact = wide_bounds::exact(a);
            let one = wide_bounds::one();
            let floor = convert::floor_integer(Format::Double, a.value());
            let ceiling = convert::ceiling_integer(Format::Double, a.value());
            let nearest = convert::nearest_integer(Format::Double, a.value());
            &&& floor * one <= exact < (floor + 1) * one
            &&& (ceiling - 1) * one < exact <= ceiling * one
            &&& 2 * bounds::absolute(nearest * one - exact) <= one
        }),
{
    let size = a.value().size(Format::Double) as int;
    let one = wide_bounds::one();
    lemma_pow2_pos(1074);
    lemma_fundamental_div_mod(size, one);
    lemma_mod_bound(size, one);
    let whole = size / one;
    let rest = size % one;
    assert(whole * one == one * whole) by (nonlinear_arith);
    assert((whole + 1) * one == whole * one + one) by (nonlinear_arith);
    assert((whole - 1) * one == whole * one - one) by (nonlinear_arith);
    assert((-whole) * one == -(whole * one)) by (nonlinear_arith);
    assert((-(whole + 1)) * one == -((whole + 1) * one)) by (nonlinear_arith);
    assert((-whole + 1) * one == -(whole * one) + one) by (nonlinear_arith);
    assert((-whole - 1) * one == -(whole * one) - one) by (nonlinear_arith);
}

/// The integers round a number of the narrow format.
pub proof fn integers_round_a_small_number(a: Scalar)
    requires
        a.finite(),
    ensures
        ({
            let exact = laws::exact(a);
            let one = pow2(149) as int;
            let floor = convert::floor_integer(Format::Single, a.value());
            let ceiling = convert::ceiling_integer(Format::Single, a.value());
            let nearest = convert::nearest_integer(Format::Single, a.value());
            &&& floor * one <= exact < (floor + 1) * one
            &&& (ceiling - 1) * one < exact <= ceiling * one
            &&& 2 * bounds::absolute(nearest * one - exact) <= one
        }),
{
    let size = a.value().size(Format::Single) as int;
    let one = pow2(149) as int;
    lemma_pow2_pos(149);
    lemma_fundamental_div_mod(size, one);
    lemma_mod_bound(size, one);
    let whole = size / one;
    assert(whole * one == one * whole) by (nonlinear_arith);
    assert((whole + 1) * one == whole * one + one) by (nonlinear_arith);
    assert((whole - 1) * one == whole * one - one) by (nonlinear_arith);
    assert((-whole) * one == -(whole * one)) by (nonlinear_arith);
    assert((-(whole + 1)) * one == -((whole + 1) * one)) by (nonlinear_arith);
    assert((-whole + 1) * one == -(whole * one) + one) by (nonlinear_arith);
    assert((-whole - 1) * one == -(whole * one) - one) by (nonlinear_arith);
}

/// The number nearest to an integer differs from it by one part in 2^23 at
/// most.
pub proof fn an_integer_is_near(n: int)
    requires
        0 <= n <= 0x1_0000_0000,
    ensures
        bounds::bounded(Scalar::integer(n), 32),
        !Scalar::integer(n).value().negative,
        0x80_0000 * bounds::absolute(laws::exact(Scalar::integer(n)) - n * pow2(149)) <= n * pow2(
            149,
        ) + 0x80_0000,
{
    lemma2_to64();
    lemma_pow2_adds(149, 32);
    let w = pow2(149);
    assert(n * w <= pow2(181)) by (nonlinear_arith)
        requires
            n <= 0x1_0000_0000,
            pow2(181) == w * 0x1_0000_0000,
    ;
    assert(n * w >= 0) by (nonlinear_arith)
        requires
            n >= 0,
    ;
    bounds::lemma_rounded_below((n * w) as nat, 1, 181);
    bounds::lemma_rounded_close((n * w) as nat, 1);
}

/// A fraction is rounded to the nearer of the two numbers beside it, and to
/// the one with an even code where it lies in the middle.
pub proof fn the_nearer_number_is_taken(num: nat, den: nat, p: nat, code: nat)
    requires
        p >= 2,
        den > 0,
        den * rounding::magnitude(code, p) <= num <= den * rounding::magnitude(code + 1, p),
    ensures
        ({
            let middle = den * (rounding::magnitude(code, p) + rounding::magnitude(code + 1, p));
            let found = rounding::nearest(num, den, p);
            &&& 2 * num < middle ==> found == code
            &&& 2 * num > middle ==> found == code + 1
            &&& 2 * num == middle ==> found % 2 == 0 && (found == code || found == code + 1)
        }),
{
    let (low, high) = (rounding::magnitude(code, p), rounding::magnitude(code + 1, p));
    let above = rounding::magnitude(code + 2, p);
    rounding::lemma_increasing(code, code + 1, p);
    rounding::lemma_increasing(code + 1, code + 2, p);
    let middle = den * (low + high);
    assert(middle == den * low + den * high) by (nonlinear_arith)
        requires
            middle == den * (low + high),
    ;
    assert(den * (high + above) == den * high + den * above && den * low < den * high && den * high
        < den * above) by (nonlinear_arith)
        requires
            low < high < above,
            den > 0,
    ;
    if code > 0 {
        let below = rounding::magnitude((code - 1) as nat, p);
        rounding::lemma_increasing((code - 1) as nat, code, p);
        assert(den * (below + low) == den * below + den * low && den * below < den * low)
            by (nonlinear_arith)
            requires
                below < low,
                den > 0,
        ;
    }
    if 2 * num < middle || (2 * num == middle && code % 2 == 0) {
        assert(rounding::rounds_to(num, den, p, code));
        rounding::lemma_nearest(num, den, p, code);
    } else {
        assert(rounding::rounds_to(num, den, p, code + 1));
        rounding::lemma_nearest(num, den, p, code + 1);
    }
}

/// A number without its fraction lies no further from zero than the number,
/// and less than one nearer.
pub proof fn a_fraction_is_cut_off(a: Wide)
    requires
        a.finite(),
    ensures
        ({
            let exact = wide_bounds::exact(a);
            let one = wide_bounds::one();
            let cut = convert::truncated_integer(Format::Double, a.value());
            &&& exact >= 0 ==> 0 <= cut * one <= exact < (cut + 1) * one
            &&& exact < 0 ==> (cut - 1) * one < exact <= cut * one <= 0
        }),
{
    let size = a.value().size(Format::Double) as int;
    let one = wide_bounds::one();
    lemma_pow2_pos(1074);
    lemma_fundamental_div_mod(size, one);
    lemma_mod_bound(size, one);
    lemma_div_pos_is_pos(size, one);
    let whole = size / one;
    assert(whole * one == one * whole && whole * one >= 0) by (nonlinear_arith)
        requires
            whole >= 0,
            one > 0,
    ;
    assert((whole + 1) * one == whole * one + one) by (nonlinear_arith);
    assert((-whole) * one == -(whole * one)) by (nonlinear_arith);
    assert((-whole - 1) * one == -(whole * one) - one) by (nonlinear_arith);
    if size == 0 {
        lemma_div_basics(one);
        assert(whole == 0);
    }
}

} // verus!
