//! How large sums, products and quotients can become.

use vstd::arithmetic::power2::*;
use vstd::prelude::*;

use crate::number::binary;
use crate::number::binary::Format;
use crate::number::constants;
use crate::number::laws;
use crate::number::root;
use crate::number::rounding;
use crate::number::scalar::Scalar;

verus! {

/// A power of two in units of the smallest positive number.
pub open spec fn power(k: int) -> nat
    recommends
        k >= -149,
{
    pow2((149 + k) as nat)
}

/// The size of a number in units.
pub open spec fn units(a: Scalar) -> nat {
    a.value().size(Format::Single)
}

/// Whether a number is finite and at most a power of two in size.
pub open spec fn bounded(a: Scalar, k: int) -> bool {
    a.finite() && units(a) <= power(k)
}

/// Whether a number is finite and at least a power of two in size.
pub open spec fn sizeable(a: Scalar, k: int) -> bool {
    a.finite() && units(a) >= power(k)
}

/// Whether a number is zero, of either sign.
pub open spec fn nought(a: Scalar) -> bool {
    a.value().code == 0
}

/// Powers of two within range are numbers.
proof fn lemma_power_code(m: nat) -> (code: nat)
    requires
        m <= 276,
    ensures
        code < 0x7f80_0000,
        rounding::magnitude(code, 24) == pow2(m),
{
    lemma2_to64();
    if m < 24 {
        lemma_pow2_pos(m);
        if m < 23 {
            lemma_pow2_strictly_increases(m, 24);
        }
        lemma_pow2_strictly_increases(m, 24);
        rounding::lemma_encode(0, pow2(m), 24);
        pow2(m)
    } else {
        let k = (m - 23) as nat;
        rounding::lemma_encode(k, 0x80_0000, 24);
        lemma_pow2_adds(23, k);
        (k * 0x80_0000 + 0x80_0000) as nat
    }
}

/// A fraction of at most a power of two rounds to at most that power.
pub proof fn lemma_rounded_below(num: nat, den: nat, m: nat)
    requires
        m <= 276,
        den > 0,
        num <= den * pow2(m),
    ensures
        rounding::nearest(num, den, 24) < 0x7f80_0000,
        rounding::magnitude(rounding::nearest(num, den, 24), 24) <= pow2(m),
{
    let code = lemma_power_code(m);
    rounding::lemma_held(code, 24);
    rounding::lemma_nearest(pow2(m), 1, 24, code);
    assert(num * 1 <= pow2(m) * den) by (nonlinear_arith)
        requires
            num <= den * pow2(m),
    ;
    rounding::rounding_is_monotone(num, den, pow2(m), 1, 24);
    let found = rounding::nearest(num, den, 24);
    if found < code {
        rounding::lemma_increasing(found, code, 24);
    }
}

/// A fraction of at least a power of two rounds to at least that power.
proof fn lemma_rounded_above(num: nat, den: nat, m: nat)
    requires
        m <= 276,
        den > 0,
        num >= den * pow2(m),
    ensures
        rounding::magnitude(rounding::nearest(num, den, 24), 24) >= pow2(m),
{
    let code = lemma_power_code(m);
    rounding::lemma_held(code, 24);
    rounding::lemma_nearest(pow2(m), 1, 24, code);
    assert(pow2(m) * den <= num * 1) by (nonlinear_arith)
        requires
            num >= den * pow2(m),
    ;
    rounding::rounding_is_monotone(pow2(m), 1, num, den, 24);
    let found = rounding::nearest(num, den, 24);
    if code < found {
        rounding::lemma_increasing(code, found, 24);
    }
}

/// A product is at most as large as the product of the bounds.
pub proof fn a_product_is_bounded(a: Scalar, b: Scalar, j: int, k: int)
    requires
        bounded(a, j),
        bounded(b, k),
        -149 <= j,
        -149 <= k,
        -149 <= j + k <= 127,
    ensures
        bounded(a.product(b), j + k),
{
    reveal(Scalar::product);
    let m = (149 + j + k) as nat;
    let num = units(a) * units(b);
    lemma_pow2_pos(149);
    lemma_pow2_adds((149 + j) as nat, (149 + k) as nat);
    lemma_pow2_adds(149, m);
    assert(num <= pow2(149) * pow2(m)) by (nonlinear_arith)
        requires
            num == units(a) * units(b),
            units(a) <= pow2((149 + j) as nat),
            units(b) <= pow2((149 + k) as nat),
            pow2((149 + j) as nat) * pow2((149 + k) as nat) == pow2(149) * pow2(m),
    ;
    lemma_rounded_below(num, pow2(149), m);
}

/// A product with zero is zero.
pub proof fn a_product_with_zero_is_zero(a: Scalar, b: Scalar)
    requires
        a.finite(),
        b.finite(),
        nought(a) || nought(b),
    ensures
        nought(a.product(b)),
{
    reveal(Scalar::product);
    lemma_pow2_pos(149);
    rounding::lemma_zero_magnitude(24);
    assert(units(a) * units(b) == 0) by (nonlinear_arith)
        requires
            units(a) == 0 || units(b) == 0,
    ;
    rounding::lemma_zero_fraction(pow2(149), 24);
    rounding::lemma_nearest(0, pow2(149), 24, 0);
}

/// The number one in units.
proof fn lemma_one()
    ensures
        units(Scalar { bits: constants::ONE }) == pow2(149),
        (Scalar { bits: constants::ONE }).finite(),
{
    lemma2_to64();
    rounding::lemma_encode(126, 0x80_0000, 24);
    lemma_pow2_adds(23, 126);
}

/// A product with one is the other factor.
pub proof fn a_product_with_one_is_the_same(a: Scalar)
    requires
        a.finite(),
    ensures
        a.product(Scalar { bits: constants::ONE }) == a,
        (Scalar { bits: constants::ONE }).product(a) == a,
{
    reveal(Scalar::product);
    lemma_one();
    lemma_pow2_pos(149);
    let code = a.value().code as nat;
    let n = units(a);
    rounding::lemma_held(code, 24);
    assert(n * pow2(149) == (n * pow2(149)) * 1) by (nonlinear_arith);
    rounding::lemma_equal_fractions(n, 1, (n * pow2(149)) as nat, pow2(149), 24, code);
    rounding::lemma_nearest((n * pow2(149)) as nat, pow2(149), 24, code);
    assert(pow2(149) * n == n * pow2(149)) by (nonlinear_arith);
}

/// A quotient is at most as large as the quotient of the bounds.
pub proof fn a_quotient_is_bounded(a: Scalar, b: Scalar, j: int, k: int)
    requires
        bounded(a, j),
        sizeable(b, k),
        -149 <= j,
        -149 <= k,
        -149 <= j - k <= 127,
    ensures
        bounded(a.quotient(b), j - k),
{
    reveal(Scalar::quotient);
    let m = (149 + j - k) as nat;
    lemma_pow2_pos((149 + k) as nat);
    lemma_pow2_adds((149 + k) as nat, m);
    lemma_pow2_adds((149 + j) as nat, 149);
    rounding::lemma_zero_magnitude(24);
    let num = units(a) * pow2(149);
    assert(num <= units(b) * pow2(m)) by (nonlinear_arith)
        requires
            num == units(a) * pow2(149),
            units(a) <= pow2((149 + j) as nat),
            units(b) >= pow2((149 + k) as nat),
            pow2((149 + j) as nat) * pow2(149) == pow2((149 + k) as nat) * pow2(m),
    ;
    lemma_rounded_below(num, units(b), m);
}

/// A quotient is at least as large as the quotient of the bounds, and has the
/// sign that the signs of the operands give it.
pub proof fn a_quotient_is_sizeable(a: Scalar, b: Scalar, j: int, k: int)
    requires
        sizeable(a, j),
        bounded(b, k),
        !nought(b),
        -149 <= j,
        -149 <= k,
        -149 <= j - k <= 127,
    ensures
        !a.quotient(b).nan(),
        units(a.quotient(b)) >= power(j - k),
        a.quotient(b).value().negative == (a.value().negative != b.value().negative),
{
    reveal(Scalar::quotient);
    let m = (149 + j - k) as nat;
    lemma_pow2_adds((149 + k) as nat, m);
    lemma_pow2_adds((149 + j) as nat, 149);
    lemma_nonzero(b);
    let num = units(a) * pow2(149);
    assert(num >= units(b) * pow2(m)) by (nonlinear_arith)
        requires
            num == units(a) * pow2(149),
            units(a) >= pow2((149 + j) as nat),
            units(b) <= pow2((149 + k) as nat),
            pow2((149 + j) as nat) * pow2(149) == pow2((149 + k) as nat) * pow2(m),
    ;
    lemma_rounded_above(num, units(b), m);
    let found = rounding::nearest(num, units(b), 24);
    let code = lemma_power_code(276);
    if found >= 0x7f80_0000 {
        rounding::lemma_increasing(code, 0x7f80_0000, 24);
        if m < 276 {
            lemma_pow2_strictly_increases(m, 276);
        }
    }
}

/// What is not zero has a size.
proof fn lemma_nonzero(a: Scalar)
    ensures
        nought(a) <==> units(a) == 0,
{
    rounding::lemma_zero_magnitude(24);
    if a.value().code > 0 {
        rounding::lemma_increasing(0, a.value().code as nat, 24);
    }
}

/// Zero divided by a finite number is zero.
pub proof fn zero_divided_is_zero(a: Scalar, b: Scalar)
    requires
        nought(a),
        b.finite(),
        !nought(b),
    ensures
        nought(a.quotient(b)),
{
    reveal(Scalar::quotient);
    lemma_nonzero(a);
    lemma_nonzero(b);
    assert(units(a) * pow2(149) == 0) by (nonlinear_arith)
        requires
            units(a) == 0,
    ;
    rounding::lemma_zero_fraction(units(b), 24);
    rounding::lemma_nearest(0, units(b), 24, 0);
}

/// A finite number other than zero, divided by itself, is one.
pub proof fn a_quotient_with_itself_is_one(a: Scalar)
    requires
        a.finite(),
        !nought(a),
    ensures
        a.quotient(a) == (Scalar { bits: constants::ONE }),
{
    reveal(Scalar::quotient);
    lemma_nonzero(a);
    lemma_one();
    let one: nat = 0x3f80_0000;
    let n = units(a);
    rounding::lemma_held(one, 24);
    assert(pow2(149) * n == (n * pow2(149)) * 1) by (nonlinear_arith);
    rounding::lemma_equal_fractions(pow2(149), 1, (n * pow2(149)) as nat, n, 24, one);
    rounding::lemma_nearest((n * pow2(149)) as nat, n, 24, one);
}

/// A sum that lies between two finite numbers exactly does so when rounded.
pub proof fn a_sum_stays_between(a: Scalar, b: Scalar, low: Scalar, high: Scalar)
    requires
        a.finite(),
        b.finite(),
        low.finite(),
        high.finite(),
        laws::exact(low) <= laws::exact(a) + laws::exact(b) <= laws::exact(high),
    ensures
        a.sum(b).finite(),
        a.sum(b).within(low, high),
{
    laws::sum_is_nearest(a, b);
    laws::nearest_is_monotone(laws::exact(low), laws::exact(a) + laws::exact(b));
    laws::nearest_is_monotone(laws::exact(a) + laws::exact(b), laws::exact(high));
    laws::nearest_to_itself(low);
    laws::nearest_to_itself(high);
}

/// A sum whose exact value is a number is that number.
pub proof fn an_exact_sum_is_kept(a: Scalar, b: Scalar, c: Scalar)
    requires
        a.finite(),
        b.finite(),
        c.finite(),
        laws::exact(a) + laws::exact(b) == laws::exact(c),
    ensures
        a.sum(b).finite(),
        a.sum(b).same(c),
{
    a_sum_stays_between(a, b, c, c);
}

/// A sum is at most twice as large as the bound of both operands.
pub proof fn a_sum_is_bounded(a: Scalar, b: Scalar, k: int)
    requires
        bounded(a, k),
        bounded(b, k),
        -149 <= k <= 126,
    ensures
        bounded(a.sum(b), k + 1),
{
    let m = (150 + k) as nat;
    lemma_pow2_unfold(m);
    let code = lemma_power_code(m);
    let high = Scalar { bits: code as u32 };
    let low = Scalar { bits: (code + 0x8000_0000) as u32 };
    assert(laws::exact(high) == pow2(m));
    assert(laws::exact(low) == -pow2(m));
    a_sum_stays_between(a, b, low, high);
    laws::order_is_exact(low, a.sum(b));
    laws::order_is_exact(a.sum(b), high);
}

/// How far a code may be below the one nearest to a root.
spec fn left_to_climb(square: nat, p: nat, code: nat) -> int {
    let gap = 4 * square + 1 - (rounding::magnitude(code, p) + rounding::magnitude(code + 1, p));
    if gap > 0 {
        gap
    } else {
        0
    }
}

/// There is a code nearest to a root.
proof fn lemma_root_exists(square: nat, p: nat, code: nat)
    requires
        p >= 2,
        code > 0 ==> {
            let middle = rounding::magnitude((code - 1) as nat, p) + rounding::magnitude(code, p);
            middle * middle < 4 * square || (middle * middle == 4 * square && code % 2 == 0)
        },
    ensures
        root::root_rounds_to(square, p, root::nearest_root(square, p)),
    decreases left_to_climb(square, p, code),
{
    let middle = rounding::magnitude(code, p) + rounding::magnitude(code + 1, p);
    if !root::root_rounds_to(square, p, code) {
        rounding::lemma_increasing(code, code + 1, p);
        rounding::lemma_increasing(code + 1, code + 2, p);
        assert(middle <= middle * middle) by (nonlinear_arith);
        lemma_root_exists(square, p, code + 1);
    }
}

/// The root of a number from one upwards is at least one.
pub proof fn a_root_is_sizeable(a: Scalar)
    requires
        sizeable(a, 0),
        !a.value().negative,
    ensures
        a.root().finite(),
        sizeable(a.root(), 0),
        !a.root().value().negative,
{
    reveal(Scalar::root);
    lemma_one();
    lemma_nonzero(a);
    lemma_pow2_pos(149);
    let square = (units(a) * pow2(149)) as nat;
    lemma_root_exists(square, 24, 0);
    let found = root::nearest_root(square, 24);
    let one: nat = 0x3f80_0000;
    let p = pow2(149);
    if found < one {
        let middle = rounding::magnitude(found, 24) + rounding::magnitude(found + 1, 24);
        rounding::lemma_increasing(found, one, 24);
        if found + 1 < one {
            rounding::lemma_increasing(found + 1, one, 24);
        }
        assert(middle * middle < 4 * square) by (nonlinear_arith)
            requires
                middle < 2 * p,
                square == units(a) * p,
                units(a) >= p,
        ;
        assert(false);
    }
    if one < found {
        rounding::lemma_increasing(one, found, 24);
    }
    // Roots stay far below infinity.
    let top = lemma_power_code(276);
    if found >= 0x7f80_0000 {
        let below = rounding::magnitude((found - 1) as nat, 24);
        let middle = below + rounding::magnitude(found, 24);
        if top < found - 1 {
            rounding::lemma_increasing(top, (found - 1) as nat, 24);
        }
        rounding::lemma_increasing((found - 1) as nat, found, 24);
        rounding::lemma_increasing(a.value().code as nat, 0x7f80_0000, 24);
        lemma_infinity();
        lemma_pow2_adds(276, 276);
        lemma_pow2_adds(149, 277);
        lemma_pow2_strictly_increases(426, 552);
        assert(middle * middle > 4 * square) by (nonlinear_arith)
            requires
                middle > 2 * pow2(276),
                square == units(a) * pow2(149),
                units(a) < pow2(277),
                pow2(276) * pow2(276) == pow2(552),
                pow2(149) * pow2(277) == pow2(426),
                pow2(426) < pow2(552),
                pow2(149) > 0,
        ;
        assert(false);
    }
}

/// The size at which numbers end.
proof fn lemma_infinity()
    ensures
        rounding::magnitude(0x7f80_0000, 24) == pow2(277),
{
    lemma2_to64();
    rounding::lemma_encode(254, 0x80_0000, 24);
    lemma_pow2_adds(23, 254);
}

/// Whether a size differs from a fraction by at most one part in 2^23 and one
/// unit.
pub open spec fn close(m: nat, num: nat, den: nat) -> bool {
    &&& m * den * 0x80_0000 <= num * 0x80_0001 + den * 0x80_0000
    &&& num * 0x80_0000 <= m * den * 0x80_0001 + den * 0x80_0000
}

/// The step above a code is one part in 2^23 of its size at most, or one unit.
proof fn lemma_step_is_small(code: nat)
    ensures
        ({
            let m = rounding::magnitude(code, 24);
            let s = pow2(rounding::exponent(code, 24));
            &&& rounding::magnitude(code + 1, 24) == m + s
            &&& s > 0
            &&& s == 1 || s * 0x80_0000 <= m
        }),
{
    lemma2_to64();
    rounding::lemma_step(code, 24);
    rounding::lemma_decode(code, 24);
    if rounding::exponent(code, 24) > 0 {
        let m = rounding::magnitude(code, 24);
        let q = rounding::significand(code, 24);
        let s = pow2(rounding::exponent(code, 24));
        assert(s * 0x80_0000 <= m) by (nonlinear_arith)
            requires
                m == q * s,
                q >= 0x80_0000,
        ;
    }
}

/// Rounding keeps close.
pub proof fn lemma_rounded_close(num: nat, den: nat)
    requires
        den > 0,
    ensures
        close(rounding::magnitude(rounding::nearest(num, den, 24), 24), num, den),
{
    let code = rounding::nearest(num, den, 24);
    let m = rounding::magnitude(code, 24) as int;
    rounding::lemma_rounds(num, den, 24);
    rounding::lemma_zero_magnitude(24);
    lemma_step_is_small(code);
    let up = pow2(rounding::exponent(code, 24)) as int;
    assert(den * (m + (m + up)) == 2 * (m * den) + den * up) by (nonlinear_arith);
    if up == 1 {
        assert(den * up == den) by (nonlinear_arith)
            requires
                up == 1,
        ;
    } else {
        assert(den * up * 0x80_0000 <= m * den) by (nonlinear_arith)
            requires
                up * 0x80_0000 <= m,
                den > 0,
        ;
    }
    if code > 0 {
        let below = (code - 1) as nat;
        lemma_step_is_small(below);
        let b = rounding::magnitude(below, 24) as int;
        let s = pow2(rounding::exponent(below, 24)) as int;
        assert(m == b + s);
        assert(den * (b + m) == 2 * (den * b) + den * s) by (nonlinear_arith)
            requires
                m == b + s,
        ;
        assert(m * den == den * b + den * s) by (nonlinear_arith)
            requires
                m == b + s,
        ;
        assert(den * s >= 0) by (nonlinear_arith)
            requires
                s > 0,
                den > 0,
        ;
        if s == 1 {
            assert(den * s == den) by (nonlinear_arith)
                requires
                    s == 1,
            ;
        } else {
            assert(den * s * 0x80_0000 <= den * b) by (nonlinear_arith)
                requires
                    s * 0x80_0000 <= b,
                    den > 0,
            ;
        }
    } else {
        assert(m * den == 0) by (nonlinear_arith)
            requires
                m == 0,
        ;
    }
}

/// The number nearest to an integer is at most one part in 2^23 above it.
pub proof fn an_integer_is_close(n: nat)
    requires
        n <= 0x8000_0000,
    ensures
        bounded(Scalar::integer(n as int), 31),
        !Scalar::integer(n as int).value().negative,
        units(Scalar::integer(n as int)) * 0x80_0000 <= n * power(0) * 0x80_0001 + 0x80_0000,
{
    lemma2_to64();
    lemma_pow2_adds(149, 31);
    assert(n * pow2(149) <= 1 * pow2(180)) by (nonlinear_arith)
        requires
            n <= 0x8000_0000,
            pow2(180) == pow2(149) * 0x8000_0000,
    ;
    lemma_rounded_below((n * pow2(149)) as nat, 1, 180);
    lemma_rounded_close((n * pow2(149)) as nat, 1);
}

/// A product is close to the exact one.
pub proof fn a_product_is_close(a: Scalar, b: Scalar, j: int, k: int)
    requires
        bounded(a, j),
        bounded(b, k),
        -149 <= j,
        -149 <= k,
        -149 <= j + k <= 127,
    ensures
        close(units(a.product(b)), units(a) * units(b), power(0)),
        a.product(b).value().negative == (a.value().negative != b.value().negative),
{
    a_product_is_bounded(a, b, j, k);
    reveal(Scalar::product);
    lemma_pow2_pos(149);
    lemma_rounded_close(units(a) * units(b), pow2(149));
}

/// A quotient is close to the exact one.
pub proof fn a_quotient_is_close(a: Scalar, b: Scalar, j: int, k: int)
    requires
        bounded(a, j),
        sizeable(b, k),
        -149 <= j,
        -149 <= k,
        -149 <= j - k <= 127,
    ensures
        close(units(a.quotient(b)), units(a) * power(0), units(b)),
        a.quotient(b).value().negative == (a.value().negative != b.value().negative),
{
    a_quotient_is_bounded(a, b, j, k);
    reveal(Scalar::quotient);
    lemma_pow2_pos((149 + k) as nat);
    lemma_nonzero(b);
    lemma_rounded_close(units(a) * pow2(149), units(b));
}

/// The size of an integer.
pub open spec fn absolute(n: int) -> int {
    if n < 0 {
        -n
    } else {
        n
    }
}

/// A sum is close to the exact one.
pub proof fn a_sum_is_close(a: Scalar, b: Scalar, k: int)
    requires
        bounded(a, k),
        bounded(b, k),
        -149 <= k <= 126,
    ensures
        ({
            let total = laws::exact(a) + laws::exact(b);
            let found = laws::exact(a.sum(b));
            &&& (found - total) * 0x80_0000 <= absolute(total) + 0x80_0000
            &&& (total - found) * 0x80_0000 <= absolute(total) + 0x80_0000
        }),
{
    a_sum_is_bounded(a, b, k);
    laws::sum_is_nearest(a, b);
    rounding::lemma_zero_magnitude(24);
    let total = laws::exact(a) + laws::exact(b);
    lemma_rounded_close(absolute(total) as nat, 1);
}

/// A root is close to the exact one.
pub proof fn a_root_is_close(a: Scalar)
    requires
        sizeable(a, 0),
        !a.value().negative,
    ensures
        ({
            let r = units(a.root());
            &&& 4 * (units(a) * power(0)) * (0x80_0000 * 0x80_0000) <= r * r * (0x100_0001
                * 0x100_0001)
            &&& r * r <= 4 * (units(a) * power(0))
        }),
{
    a_root_is_sizeable(a);
    reveal(Scalar::root);
    lemma_nonzero(a);
    lemma_pow2_pos(149);
    let square = (units(a) * pow2(149)) as nat;
    lemma_root_exists(square, 24, 0);
    let code = root::nearest_root(square, 24);
    let r = rounding::magnitude(code, 24) as int;
    lemma_step_is_small(code);
    let up = pow2(rounding::exponent(code, 24)) as int;
    lemma2_to64();
    lemma_pow2_strictly_increases(32, 149);
    assert(up * 0x80_0000 <= r);
    let middle = r + (r + up);
    assert(middle * middle * (0x80_0000 * 0x80_0000) <= r * r * (0x100_0001 * 0x100_0001))
        by (nonlinear_arith)
        requires
            middle * 0x80_0000 <= r * 0x100_0001,
            middle >= 0,
    ;
    assert(units(a.root()) == r);
    assert(4 * square <= middle * middle);
    let k = 0x80_0000 * 0x80_0000int;
    assert(4 * square * k <= middle * middle * k) by (nonlinear_arith)
        requires
            4 * square <= middle * middle,
            k >= 0,
    ;
    rounding::lemma_zero_magnitude(24);
    assert(code > 0);
    let below = rounding::magnitude((code - 1) as nat, 24) as int;
    assert((below + r) * (below + r) <= 4 * square);
    assert(r * r <= (below + r) * (below + r)) by (nonlinear_arith)
        requires
            r >= 0,
            below >= 0,
    ;
}

/// A part divided by the whole is at most one.
pub proof fn a_share_is_at_most_one(a: Scalar, b: Scalar)
    requires
        a.finite(),
        b.finite(),
        !nought(b),
        units(a) <= units(b),
    ensures
        bounded(a.quotient(b), 0),
        a.quotient(b).value().negative == (a.value().negative != b.value().negative),
{
    reveal(Scalar::quotient);
    lemma_nonzero(b);
    lemma_pow2_pos(149);
    let num = units(a) * pow2(149);
    assert(num <= units(b) * pow2(149)) by (nonlinear_arith)
        requires
            num == units(a) * pow2(149),
            units(a) <= units(b),
    ;
    lemma_rounded_below(num, units(b), 149);
}

/// Of two parts the smaller, divided by the same whole, is no larger.
pub proof fn a_quotient_is_monotone(a: Scalar, b: Scalar, c: Scalar)
    requires
        a.finite(),
        b.finite(),
        c.finite(),
        !nought(c),
        units(a) <= units(b),
        a.quotient(c).finite(),
        b.quotient(c).finite(),
    ensures
        units(a.quotient(c)) <= units(b.quotient(c)),
{
    reveal(Scalar::quotient);
    lemma_nonzero(c);
    let smaller = units(a) * pow2(149);
    let larger = units(b) * pow2(149);
    assert(smaller * units(c) <= larger * units(c)) by (nonlinear_arith)
        requires
            smaller == units(a) * pow2(149),
            larger == units(b) * pow2(149),
            units(a) <= units(b),
    ;
    rounding::rounding_is_monotone(smaller, units(c), larger, units(c), 24);
    let low = rounding::nearest(smaller, units(c), 24);
    let high = rounding::nearest(larger, units(c), 24);
    if low < high {
        rounding::lemma_increasing(low, high, 24);
    }
}

} // verus!
