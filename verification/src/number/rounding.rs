//! Rounding of exact values to the nearest representable magnitude.
//!
//! A binary format with `p` significant bits numbers its non-negative values
//! 0, 1, 2, ... in increasing order: these numbers are the *codes* of the
//! format, and they are the bit patterns of the values without the sign. The
//! value of a code is a whole number of *units*, the unit being the smallest
//! positive value of the format. Exact results are fractions of units.

use vstd::arithmetic::div_mod::*;
use vstd::arithmetic::mul::*;
use vstd::arithmetic::power2::*;
use vstd::prelude::*;

verus! {

/// The weight of the leading bit of a full significand.
pub open spec fn leading(p: nat) -> nat {
    pow2((p - 1) as nat)
}

/// The power of two by which the significand of a code is scaled.
pub open spec fn exponent(code: nat, p: nat) -> nat {
    if code < leading(p) {
        0
    } else {
        (code / leading(p) - 1) as nat
    }
}

/// The significand of a code: below `2^p`, and at least `2^(p-1)` unless the
/// exponent is zero.
pub open spec fn significand(code: nat, p: nat) -> nat {
    (code - exponent(code, p) * leading(p)) as nat
}

/// The value of a code, in units.
pub open spec fn magnitude(code: nat, p: nat) -> nat {
    significand(code, p) * pow2(exponent(code, p))
}

/// `code` is the value nearest to `num / den` units, and the even one of the
/// two nearest where there are two.
pub open spec fn rounds_to(num: nat, den: nat, p: nat, code: nat) -> bool {
    &&& code > 0 ==> {
        let middle = den * (magnitude((code - 1) as nat, p) + magnitude(code, p));
        middle < 2 * num || (middle == 2 * num && code % 2 == 0)
    }
    &&& {
        let middle = den * (magnitude(code, p) + magnitude(code + 1, p));
        2 * num < middle || (middle == 2 * num && code % 2 == 0)
    }
}

/// The code nearest to `num / den` units, ties going to the even code.
pub open spec fn nearest(num: nat, den: nat, p: nat) -> nat {
    choose|code: nat| rounds_to(num, den, p, code)
}

pub proof fn lemma_leading(p: nat)
    requires
        p >= 2,
    ensures
        leading(p) >= 2,
        leading(p) % 2 == 0,
        pow2(p) == 2 * leading(p),
{
    lemma_pow2_unfold(p);
    lemma_pow2_unfold((p - 1) as nat);
    lemma_pow2_pos((p - 2) as nat);
}

/// A significand and an exponent that fit together have the expected code.
pub proof fn lemma_encode(k: nat, q: nat, p: nat)
    requires
        p >= 2,
        q < 2 * leading(p),
        k == 0 || q >= leading(p),
    ensures
        exponent((k * leading(p) + q) as nat, p) == k,
        significand((k * leading(p) + q) as nat, p) == q,
        magnitude((k * leading(p) + q) as nat, p) == q * pow2(k),
{
    lemma_leading(p);
    let h = leading(p) as int;
    let code = (k * leading(p) + q) as int;
    if q < h {
        assert(k == 0);
        assert(k * h == 0) by (nonlinear_arith)
            requires
                k == 0,
        ;
    } else {
        assert(code == (k + 1) * h + (q - h)) by (nonlinear_arith)
            requires
                code == k * h + q,
        ;
        lemma_fundamental_div_mod_converse(code, h, k as int + 1, q - h);
        assert(k * h >= 0) by (nonlinear_arith)
            requires
                h >= 0,
        ;
    }
}

/// Taking a code apart and putting it together again.
pub proof fn lemma_decode(code: nat, p: nat)
    requires
        p >= 2,
    ensures
        significand(code, p) < 2 * leading(p),
        exponent(code, p) == 0 || significand(code, p) >= leading(p),
        code == exponent(code, p) * leading(p) + significand(code, p),
{
    lemma_leading(p);
    let h = leading(p) as int;
    if code >= h {
        lemma_fundamental_div_mod(code as int, h);
        let e = code as int / h;
        lemma_div_non_zero(code as int, h);
        assert(e >= 1);
        assert((e - 1) * h == h * e - h) by (nonlinear_arith);
        lemma_mod_bound(code as int, h);
    } else {
        assert(0 * h == 0);
    }
}

/// Neighbouring codes differ by the scale of the lower one.
pub proof fn lemma_step(code: nat, p: nat)
    requires
        p >= 2,
    ensures
        magnitude(code + 1, p) == magnitude(code, p) + pow2(exponent(code, p)),
        pow2(exponent(code, p)) > 0,
        code > 0 ==> 2 * pow2(exponent((code - 1) as nat, p)) >= pow2(exponent(code, p)),
{
    lemma_leading(p);
    lemma_decode(code, p);
    let h = leading(p);
    let k = exponent(code, p);
    let q = significand(code, p);
    lemma_pow2_pos(k);
    lemma_encode(k, q, p);
    if q + 1 < 2 * h {
        assert(k == 0 || q + 1 >= h);
        lemma_encode(k, q + 1, p);
        assert(code + 1 == k * h + (q + 1));
        assert((q + 1) * pow2(k) == q * pow2(k) + pow2(k)) by (nonlinear_arith);
    } else {
        lemma_encode(k + 1, h, p);
        assert((k + 1) * h + h == k * h + (q + 1)) by (nonlinear_arith)
            requires
                q + 1 == 2 * h,
        ;
        lemma_pow2_unfold(k + 1);
        assert(h * pow2(k + 1) == q * pow2(k) + pow2(k)) by (nonlinear_arith)
            requires
                q + 1 == 2 * h,
                pow2(k + 1) == 2 * pow2(k),
        ;
    }
    if code > 0 {
        let below = (code - 1) as nat;
        lemma_decode(below, p);
        let kb = exponent(below, p);
        let qb = significand(below, p);
        lemma_pow2_pos(kb);
        if qb + 1 < 2 * h {
            lemma_encode(kb, qb + 1, p);
            assert(k == kb);
        } else {
            lemma_encode(kb + 1, h, p);
            assert((kb + 1) * h + h == kb * h + (qb + 1)) by (nonlinear_arith)
                requires
                    qb + 1 == 2 * h,
            ;
            assert(k == kb + 1);
            lemma_pow2_unfold(kb + 1);
        }
    }
}

/// A larger code has a larger value.
pub proof fn lemma_increasing(low: nat, high: nat, p: nat)
    requires
        p >= 2,
        low < high,
    ensures
        magnitude(low, p) < magnitude(high, p),
    decreases high - low,
{
    lemma_step(low, p);
    if low + 1 < high {
        lemma_increasing(low + 1, high, p);
    }
}

pub proof fn lemma_zero_magnitude(p: nat)
    requires
        p >= 2,
    ensures
        magnitude(0, p) == 0,
{
    lemma_leading(p);
    assert(0 * leading(p) == 0);
    lemma_encode(0, 0, p);
    assert(0 * pow2(0) == 0);
}

/// Rounding picks one code and no other.
pub proof fn rounding_is_unique(num: nat, den: nat, p: nat, a: nat, b: nat)
    requires
        p >= 2,
        den > 0,
        rounds_to(num, den, p, a),
        rounds_to(num, den, p, b),
    ensures
        a == b,
{
    if a < b {
        lemma_apart(num, den, p, a, b);
    } else if b < a {
        lemma_apart(num, den, p, b, a);
    }
}

proof fn lemma_apart(num: nat, den: nat, p: nat, a: nat, b: nat)
    requires
        p >= 2,
        den > 0,
        a < b,
    ensures
        !(rounds_to(num, den, p, a) && rounds_to(num, den, p, b)),
{
    let above_a = magnitude(a, p) + magnitude(a + 1, p);
    let below_b = magnitude((b - 1) as nat, p) + magnitude(b, p);
    if a + 1 < b {
        lemma_increasing(a, (b - 1) as nat, p);
        lemma_increasing(a + 1, b, p);
        assert(den * above_a < den * below_b) by (nonlinear_arith)
            requires
                den > 0,
                above_a < below_b,
        ;
    } else {
        assert(above_a == below_b);
    }
}

/// Where a code is nearest, `nearest` is that code.
pub proof fn lemma_nearest(num: nat, den: nat, p: nat, code: nat)
    requires
        p >= 2,
        den > 0,
        rounds_to(num, den, p, code),
    ensures
        nearest(num, den, p) == code,
{
    rounding_is_unique(num, den, p, nearest(num, den, p), code);
}

/// Equal fractions round alike.
pub proof fn lemma_equal_fractions(n1: nat, d1: nat, n2: nat, d2: nat, p: nat, code: nat)
    requires
        d1 > 0,
        d2 > 0,
        n1 * d2 == n2 * d1,
        rounds_to(n1, d1, p, code),
    ensures
        rounds_to(n2, d2, p, code),
{
    let above = magnitude(code, p) + magnitude(code + 1, p);
    lemma_compare(n1, d1, n2, d2, above);
    if code > 0 {
        let below = magnitude((code - 1) as nat, p) + magnitude(code, p);
        lemma_compare(n1, d1, n2, d2, below);
    }
}

proof fn lemma_compare(n1: nat, d1: nat, n2: nat, d2: nat, x: nat)
    requires
        d1 > 0,
        d2 > 0,
        n1 * d2 == n2 * d1,
    ensures
        d1 * x < 2 * n1 <==> d2 * x < 2 * n2,
        d1 * x == 2 * n1 <==> d2 * x == 2 * n2,
{
    assert((d1 * x) * d2 == (d2 * x) * d1) by (nonlinear_arith);
    assert((2 * n1) * d2 == (2 * n2) * d1) by (nonlinear_arith)
        requires
            n1 * d2 == n2 * d1,
    ;
    assert(d1 * x < 2 * n1 <==> (d1 * x) * d2 < (2 * n1) * d2) by (nonlinear_arith)
        requires
            d2 > 0,
    ;
    assert(d2 * x < 2 * n2 <==> (d2 * x) * d1 < (2 * n2) * d1) by (nonlinear_arith)
        requires
            d1 > 0,
    ;
    assert(d1 * x == 2 * n1 <==> (d1 * x) * d2 == (2 * n1) * d2) by (nonlinear_arith)
        requires
            d2 > 0,
    ;
    assert(d2 * x == 2 * n2 <==> (d2 * x) * d1 == (2 * n2) * d1) by (nonlinear_arith)
        requires
            d1 > 0,
    ;
}

/// Zero rounds to zero.
pub proof fn lemma_zero_fraction(den: nat, p: nat)
    requires
        p >= 2,
        den > 0,
    ensures
        rounds_to(0, den, p, 0),
{
    lemma_zero_magnitude(p);
    lemma_step(0, p);
    let middle = magnitude(0, p) + magnitude(1, p);
    assert(den * middle > 0) by (nonlinear_arith)
        requires
            den > 0,
            middle > 0,
    ;
}

/// Every fraction has a nearest code.
pub proof fn lemma_rounds(num: nat, den: nat, p: nat)
    requires
        p >= 2,
        den > 0,
    ensures
        rounds_to(num, den, p, nearest(num, den, p)),
{
    lemma_climb(num, den, p, 0);
}

/// How far the fraction lies above the upper midpoint of a code.
spec fn left_to_climb(num: nat, den: nat, p: nat, code: nat) -> int {
    let gap = 2 * num - den * (magnitude(code, p) + magnitude(code + 1, p)) + 1;
    if gap > 0 {
        gap
    } else {
        0
    }
}

/// Climbs from a code that is not too large to the nearest one.
proof fn lemma_climb(num: nat, den: nat, p: nat, code: nat)
    requires
        p >= 2,
        den > 0,
        code > 0 ==> {
            let middle = den * (magnitude((code - 1) as nat, p) + magnitude(code, p));
            middle < 2 * num || (middle == 2 * num && code % 2 == 0)
        },
    ensures
        rounds_to(num, den, p, nearest(num, den, p)),
    decreases left_to_climb(num, den, p, code),
{
    let above = magnitude(code, p) + magnitude(code + 1, p);
    if rounds_to(num, den, p, code) {
    } else {
        let beyond = magnitude(code + 1, p) + magnitude(code + 2, p);
        lemma_step(code, p);
        lemma_step(code + 1, p);
        assert(den * beyond > den * above) by (nonlinear_arith)
            requires
                den > 0,
                beyond > above,
        ;
        lemma_climb(num, den, p, code + 1);
    }
}

/// A value that the format holds rounds to itself.
pub proof fn lemma_held(code: nat, p: nat)
    requires
        p >= 2,
    ensures
        rounds_to(magnitude(code, p), 1, p, code),
{
    lemma_step(code, p);
    if code > 0 {
        lemma_step((code - 1) as nat, p);
    }
}

/// A value within a quarter step of a code rounds to that code.
pub proof fn lemma_near(n: nat, code: nat, p: nat)
    requires
        p >= 2,
        4 * (n - magnitude(code, p)) < pow2(exponent(code, p)),
        4 * (magnitude(code, p) - n) < pow2(exponent(code, p)),
    ensures
        rounds_to(n, 1, p, code),
{
    lemma_step(code, p);
    if code > 0 {
        lemma_step((code - 1) as nat, p);
    }
}

/// Products of scaled numbers are equal where their powers of two are.
pub proof fn lemma_cross(x: nat, y: nat, a: nat, b: nat, c: nat, d: nat)
    requires
        a + b == c + d,
    ensures
        (x * pow2(a)) * (y * pow2(b)) == (x * pow2(c)) * (y * pow2(d)),
{
    lemma_pow2_adds(a, b);
    lemma_pow2_adds(c, d);
    let (u, v) = (pow2(a), pow2(b));
    let (w, z) = (pow2(c), pow2(d));
    assert((x * u) * (y * v) == (x * y) * (u * v)) by (nonlinear_arith);
    assert((x * w) * (y * z) == (x * y) * (w * z)) by (nonlinear_arith);
}

/// Rounding keeps the order: a smaller fraction never rounds to a larger code.
pub proof fn rounding_is_monotone(n1: nat, d1: nat, n2: nat, d2: nat, p: nat)
    requires
        p >= 2,
        d1 > 0,
        d2 > 0,
        n1 * d2 <= n2 * d1,
    ensures
        nearest(n1, d1, p) <= nearest(n2, d2, p),
{
    lemma_rounds(n1, d1, p);
    lemma_rounds(n2, d2, p);
    let a = nearest(n1, d1, p);
    let b = nearest(n2, d2, p);
    if b < a {
        let below = magnitude((a - 1) as nat, p) + magnitude(a, p);
        let above = magnitude(b, p) + magnitude(b + 1, p);
        if b + 1 < a {
            lemma_increasing(b, (a - 1) as nat, p);
            lemma_increasing(b + 1, a, p);
        }
        assert(above <= below);
        assert((d1 * below) * d2 <= (2 * n1) * d2) by (nonlinear_arith)
            requires
                d1 * below <= 2 * n1,
        ;
        assert((2 * n2) * d1 <= (d2 * above) * d1) by (nonlinear_arith)
            requires
                2 * n2 <= d2 * above,
        ;
        assert((2 * n1) * d2 == 2 * (n1 * d2)) by (nonlinear_arith);
        assert((2 * n2) * d1 == 2 * (n2 * d1)) by (nonlinear_arith);
        assert((d1 * below) * d2 == (d2 * below) * d1) by (nonlinear_arith);
        assert((d2 * above) * d1 <= (d2 * below) * d1) by (nonlinear_arith)
            requires
                above <= below,
        ;
        assert((d2 * above) * d1 == (d2 * below) * d1);
        assert(above == below) by (nonlinear_arith)
            requires
                (d2 * above) * d1 == (d2 * below) * d1,
                d1 > 0,
                d2 > 0,
        ;
        assert(d1 * below == 2 * n1) by (nonlinear_arith)
            requires
                (d1 * below) * d2 == (2 * n1) * d2,
                d2 > 0,
        ;
        assert(d2 * above == 2 * n2) by (nonlinear_arith)
            requires
                (d2 * above) * d1 == (2 * n2) * d1,
                d1 > 0,
        ;
        if b + 1 < a {
            assert(above < below);
        }
    }
}

/// Rounding by the remainder: an exact value between two neighbours goes to
/// the lower one, the upper one or the even one, as the remainder is below,
/// above or at the half.
proof fn lemma_by_remainder(n: nat, d: nat, k: nat, q: nat, p: nat)
    requires
        p >= 2,
        d > 0,
        q < 2 * leading(p),
        k == 0 || q >= leading(p),
        q * (d * pow2(k)) <= n < (q + 1) * (d * pow2(k)),
    ensures
        ({
            let code = (k * leading(p) + q) as nat;
            let scale = d * pow2(k);
            let rest = n - q * scale;
            &&& 2 * rest < scale ==> rounds_to(n, d, p, code)
            &&& 2 * rest > scale ==> rounds_to(n, d, p, code + 1)
            &&& 2 * rest == scale && q % 2 == 0 ==> rounds_to(n, d, p, code)
            &&& 2 * rest == scale && q % 2 == 1 ==> rounds_to(n, d, p, code + 1)
        }),
{
    let h = leading(p);
    let code = (k * h + q) as nat;
    let scale = d * pow2(k);
    lemma_leading(p);
    lemma_encode(k, q, p);
    lemma_step(code, p);
    lemma_step(code + 1, p);
    let here = magnitude(code, p);
    let next = magnitude(code + 1, p);
    let beyond = magnitude(code + 2, p);
    assert(code % 2 == q % 2) by {
        let half: int = h as int / 2;
        let product: int = k as int * half;
        assert(k * h == product * 2) by (nonlinear_arith)
            requires
                h as int == half * 2,
                product == k as int * half,
        ;
    }
    assert(d * (here + next) == (2 * q + 1) * scale) by (nonlinear_arith)
        requires
            here == q * pow2(k),
            next == here + pow2(k),
            scale == d * pow2(k),
    ;
    assert((2 * q + 1) * scale == 2 * (q * scale) + scale) by (nonlinear_arith);
    assert(d * next == (q + 1) * scale) by (nonlinear_arith)
        requires
            here == q * pow2(k),
            next == here + pow2(k),
            scale == d * pow2(k),
    ;
    assert(d * (next + beyond) > 2 * (d * next)) by (nonlinear_arith)
        requires
            d > 0,
            beyond > next,
    ;
    if code > 0 {
        let below = magnitude((code - 1) as nat, p);
        lemma_step((code - 1) as nat, p);
        assert(d * here == q * scale) by (nonlinear_arith)
            requires
                here == q * pow2(k),
                scale == d * pow2(k),
        ;
        assert(d * (below + here) < 2 * (d * here)) by (nonlinear_arith)
            requires
                d > 0,
                below < here,
        ;
    }
}

/// Two to the power of `exponent`.
pub fn power_of_two(exponent: u32) -> (value: u128)
    requires
        exponent <= 127,
    ensures
        value == pow2(exponent as nat),
{
    let mut value: u128 = 1;
    let mut i: u32 = 0;
    proof {
        lemma2_to64();
    }
    while i < exponent
        invariant
            i <= exponent <= 127,
            value == pow2(i as nat),
        decreases exponent - i,
    {
        proof {
            lemma_pow2_unfold((i + 1) as nat);
            lemma_power_fits((i + 1) as nat);
        }
        value = value * 2;
        i = i + 1;
    }
    value
}

pub proof fn lemma_power_fits(e: nat)
    requires
        e <= 127,
    ensures
        pow2(e) <= 0x8000_0000_0000_0000_0000_0000_0000_0000,
{
    lemma2_to64();
    lemma2_to64_rest();
    lemma_pow2_adds(64, 63);
    assert(pow2(127) == 0x8000_0000_0000_0000_0000_0000_0000_0000);
    if e < 127 {
        lemma_pow2_strictly_increases(e, 127);
    }
}

/// The number of bits of a positive number.
pub fn bit_length(number: u128) -> (length: u32)
    requires
        number > 0,
    ensures
        1 <= length <= 128,
        pow2((length - 1) as nat) <= number < pow2(length as nat),
{
    let mut rest: u128 = number;
    let mut length: u32 = 0;
    proof {
        lemma2_to64();
    }
    while rest > 1
        invariant
            rest >= 1,
            length <= 127,
            rest * pow2(length as nat) <= number < (rest + 1) * pow2(length as nat),
        decreases rest,
    {
        proof {
            let half = rest as int / 2;
            lemma_pow2_unfold((length + 1) as nat);
            let w = pow2(length as nat);
            lemma_pow2_pos(length as nat);
            assert(half * (2 * w) <= rest * w) by (nonlinear_arith)
                requires
                    2 * half <= rest,
                    w > 0,
            ;
            assert((half + 1) * (2 * w) >= (rest + 1) * w) by (nonlinear_arith)
                requires
                    rest <= 2 * half + 1,
                    w > 0,
            ;
            if length >= 127 {
                assert(rest * w >= 2 * w) by (nonlinear_arith)
                    requires
                        rest >= 2,
                        w > 0,
                ;
                lemma_pow2_adds(64, 63);
                lemma2_to64();
                lemma2_to64_rest();
            }
        }
        rest = rest / 2;
        length = length + 1;
    }
    proof {
        lemma_pow2_unfold((length + 1) as nat);
        assert(rest == 1);
    }
    length + 1
}

/// The fraction `num / den * 2^e` as a numerator.
pub open spec fn scaled_num(num: nat, e: int) -> nat {
    if e >= 0 {
        num * pow2(e as nat)
    } else {
        num
    }
}

/// The fraction `num / den * 2^e` as a denominator.
pub open spec fn scaled_den(den: nat, e: int) -> nat {
    if e >= 0 {
        den
    } else {
        den * pow2((-e) as nat)
    }
}

/// A whole number of some power of two, and what follows it, taken apart at
/// the precision of the format.
proof fn lemma_shifted(num: nat, den: nat, whole: nat, e: int, k: nat, s: nat, p: nat, q: nat, low: nat)
    requires
        p >= 2,
        s >= 1,
        k == e + s,
        den > 0,
        whole == q * pow2(s) + low,
        low < pow2(s),
        whole * den <= num < (whole + 1) * den,
        q < 2 * leading(p),
        k == 0 || q >= leading(p),
    ensures
        ({
            let code = (k * leading(p) + q) as nat;
            let half = pow2((s - 1) as nat);
            let n = scaled_num(num, e);
            let d = scaled_den(den, e);
            &&& low < half ==> rounds_to(n, d, p, code)
            &&& low > half || (low == half && num != whole * den) ==> rounds_to(n, d, p, code + 1)
            &&& low == half && num == whole * den && q % 2 == 0 ==> rounds_to(n, d, p, code)
            &&& low == half && num == whole * den && q % 2 == 1 ==> rounds_to(n, d, p, code + 1)
        }),
{
    let n = scaled_num(num, e);
    let d = scaled_den(den, e);
    let half = pow2((s - 1) as nat);
    let step = pow2(s);
    lemma_pow2_unfold(s);
    lemma_pow2_pos(s);
    lemma_pow2_pos((s - 1) as nat);
    let w = if e >= 0 { pow2(e as nat) } else { 1 };
    lemma_pow2_pos(k);
    lemma2_to64();
    let scale = d * pow2(k);
    let grain = den * step;
    if e >= 0 {
        lemma_pow2_pos(e as nat);
        lemma_pow2_adds(e as nat, s);
        assert(den * (w * step) == (den * step) * w) by (nonlinear_arith);
        assert(d > 0);
    } else {
        lemma_pow2_pos((-e) as nat);
        lemma_pow2_adds((-e) as nat, k);
        assert(s == (-e) as nat + k);
        assert(den * pow2((-e) as nat) * pow2(k) == den * (pow2((-e) as nat) * pow2(k)))
            by (nonlinear_arith);
        assert(d > 0) by (nonlinear_arith)
            requires
                den > 0,
                pow2((-e) as nat) > 0,
                d == den * pow2((-e) as nat),
        ;
        assert(grain * w == grain) by (nonlinear_arith)
            requires
                w == 1,
        ;
    }
    assert(n == num * w);
    assert(scale == grain * w);
    let left = num - whole * den;
    let rest = low * den + left;
    assert(whole * den == q * grain + low * den) by (nonlinear_arith)
        requires
            whole == q * step + low,
            grain == den * step,
    ;
    assert((whole + 1) * den == whole * den + den) by (nonlinear_arith);
    assert(num == q * grain + rest);
    assert(low * den + den <= grain) by (nonlinear_arith)
        requires
            low + 1 <= step,
            grain == den * step,
    ;
    assert(low * den >= 0) by (nonlinear_arith);
    assert((q + 1) * grain == q * grain + grain) by (nonlinear_arith);
    assert(q * scale == (q * grain) * w) by (nonlinear_arith)
        requires
            scale == grain * w,
    ;
    assert((q + 1) * scale == (q * grain + grain) * w) by (nonlinear_arith)
        requires
            scale == grain * w,
    ;
    assert((q * grain) * w <= num * w) by (nonlinear_arith)
        requires
            q * grain <= num,
    ;
    assert(num * w < (q * grain + grain) * w) by (nonlinear_arith)
        requires
            num < q * grain + grain,
            w > 0,
    ;
    lemma_by_remainder(n, d, k, q, p);
    assert(n - q * scale == rest * w) by (nonlinear_arith)
        requires
            n == num * w,
            q * scale == (q * grain) * w,
            num == q * grain + rest,
    ;
    assert(grain == 2 * (half * den)) by (nonlinear_arith)
        requires
            grain == den * step,
            step == 2 * half,
    ;
    if low < half {
        assert(low * den + den <= half * den) by (nonlinear_arith)
            requires
                low + 1 <= half,
        ;
        assert(2 * rest < grain);
        assert(2 * (rest * w) < grain * w) by (nonlinear_arith)
            requires
                2 * rest < grain,
                w > 0,
        ;
    } else if low > half || left > 0 {
        if low > half {
            assert(low * den >= half * den + den) by (nonlinear_arith)
                requires
                    low >= half + 1,
            ;
        }
        assert(2 * rest > grain);
        assert(2 * (rest * w) > grain * w) by (nonlinear_arith)
            requires
                2 * rest > grain,
                w > 0,
        ;
    } else {
        assert(2 * rest == grain);
        assert(2 * (rest * w) == grain * w) by (nonlinear_arith)
            requires
                2 * rest == grain,
        ;
    }
}

/// A whole number that the format holds exactly.
proof fn lemma_exact(num: nat, den: nat, whole: nat, e: int, k: nat, t: nat, p: nat)
    requires
        p >= 2,
        k + t == e,
        den > 0,
        num == whole * den,
        whole * pow2(t) < 2 * leading(p),
        k == 0 || whole * pow2(t) >= leading(p),
    ensures
        rounds_to(
            scaled_num(num, e),
            scaled_den(den, e),
            p,
            (k * leading(p) + whole * pow2(t)) as nat,
        ),
{
    let q = whole * pow2(t);
    let n = scaled_num(num, e);
    lemma_pow2_adds(t, k);
    lemma_pow2_pos(k);
    let scale = den * pow2(k);
    assert(n == q * scale) by (nonlinear_arith)
        requires
            n == num * pow2(e as nat),
            num == whole * den,
            pow2(e as nat) == pow2(t) * pow2(k),
            q == whole * pow2(t),
            scale == den * pow2(k),
    ;
    assert(scale > 0) by (nonlinear_arith)
        requires
            den > 0,
            pow2(k) > 0,
            scale == den * pow2(k),
    ;
    assert((q + 1) * scale == q * scale + scale) by (nonlinear_arith);
    lemma_by_remainder(n, den, k, q, p);
}

/// Anything below half a unit goes to zero.
proof fn lemma_vanishes(num: nat, den: nat, whole: nat, e: int, p: nat)
    requires
        p >= 2,
        den > 0,
        e < 0,
        num < (whole + 1) * den,
        whole < pow2((-e - 1) as nat),
    ensures
        rounds_to(scaled_num(num, e), scaled_den(den, e), p, 0),
{
    let half = pow2((-e - 1) as nat);
    lemma_pow2_unfold((-e) as nat);
    let d = scaled_den(den, e);
    lemma_leading(p);
    lemma2_to64();
    lemma_encode(0, 0, p);
    lemma_encode(0, 1, p);
    assert(0 * leading(p) == 0);
    assert((whole + 1) * den <= half * den) by (nonlinear_arith)
        requires
            whole + 1 <= half,
    ;
    assert(d == 2 * (half * den)) by (nonlinear_arith)
        requires
            d == den * (2 * half),
    ;
    let middle = magnitude(0, p) + magnitude(1, p);
    assert(d * middle == d) by (nonlinear_arith)
        requires
            middle == 1,
    ;
}

/// Zero is held exactly.
proof fn lemma_zero(den: nat, e: int, p: nat)
    requires
        p >= 2,
        den > 0,
    ensures
        rounds_to(scaled_num(0, e), scaled_den(den, e), p, 0),
{
    lemma_leading(p);
    lemma2_to64();
    lemma_encode(0, 0, p);
    lemma_encode(0, 1, p);
    assert(0 * leading(p) == 0);
    let d = scaled_den(den, e);
    if e >= 0 {
        assert(0 * pow2(e as nat) == 0);
    } else {
        lemma_pow2_pos((-e) as nat);
        assert(d > 0) by (nonlinear_arith)
            requires
                den > 0,
                pow2((-e) as nat) > 0,
                d == den * pow2((-e) as nat),
        ;
    }
    let middle = magnitude(0, p) + magnitude(1, p);
    assert(d * middle == d) by (nonlinear_arith)
        requires
            middle == 1,
    ;
}

/// A number of `length` bits, shifted up by `t` within the precision.
proof fn lemma_fits(whole: nat, length: nat, t: nat, p: nat)
    requires
        p >= 2,
        length >= 1,
        length + t <= p,
        pow2((length - 1) as nat) <= whole < pow2(length),
    ensures
        whole * pow2(t) < 2 * leading(p),
        length + t == p ==> whole * pow2(t) >= leading(p),
{
    lemma_leading(p);
    lemma_pow2_adds(length, t);
    lemma_pow2_adds((length - 1) as nat, t);
    lemma_pow2_pos(t);
    let w = pow2(t);
    assert(whole * w < pow2(length) * w) by (nonlinear_arith)
        requires
            whole < pow2(length),
            w > 0,
    ;
    assert(pow2((length - 1) as nat) * w <= whole * w) by (nonlinear_arith)
        requires
            pow2((length - 1) as nat) <= whole,
    ;
    if length + t < p {
        lemma_pow2_strictly_increases(length + t, p);
    }
}

/// A number of `length` bits, shifted down by `s` to the precision.
proof fn lemma_top_bits(whole: nat, length: nat, s: nat, p: nat)
    requires
        p >= 2,
        length >= 1,
        length <= s + p,
        pow2((length - 1) as nat) <= whole < pow2(length),
    ensures
        pow2(s) > 0,
        whole == (whole / pow2(s)) * pow2(s) + whole % pow2(s),
        whole % pow2(s) < pow2(s),
        whole / pow2(s) < 2 * leading(p),
        length == s + p ==> whole / pow2(s) >= leading(p),
{
    let step = pow2(s);
    lemma_leading(p);
    lemma_pow2_pos(s);
    lemma_fundamental_div_mod(whole as int, step as int);
    lemma_mod_bound(whole as int, step as int);
    let q = whole / step;
    let low = whole % step;
    assert(step * q == q * step) by (nonlinear_arith);
    lemma_pow2_adds(s, p);
    if length < s + p {
        lemma_pow2_strictly_increases(length, s + p);
    }
    assert(q < pow2(p)) by (nonlinear_arith)
        requires
            q * step <= whole,
            whole < step * pow2(p),
            step > 0,
    ;
    if length == s + p {
        lemma_pow2_adds(s, (p - 1) as nat);
        assert(q >= leading(p)) by (nonlinear_arith)
            requires
                q * step + low == whole,
                low < step,
                step * leading(p) <= whole,
                step > 0,
        ;
    }
}

proof fn lemma_leading_bound(p: nat)
    requires
        2 <= p <= 53,
    ensures
        leading(p) <= 0x10_0000_0000_0000,
{
    lemma2_to64_rest();
    if p < 53 {
        lemma_pow2_strictly_increases((p - 1) as nat, 52);
    }
}

pub proof fn lemma_length_bound(whole: nat, length: nat, bound: nat)
    requires
        length >= 1,
        pow2((length - 1) as nat) <= whole < pow2(bound),
    ensures
        length <= bound,
{
    if length > bound {
        if length - 1 > bound {
            lemma_pow2_strictly_increases(bound, (length - 1) as nat);
        }
    }
}

/// Rounds `num / den * 2^e` units, given the whole part of `num / den` and
/// whether anything follows it.
pub fn round_binary(
    whole: u128,
    inexact: bool,
    e: i32,
    p: u32,
    Ghost(num): Ghost<nat>,
    Ghost(den): Ghost<nat>,
) -> (code: u128)
    requires
        2 <= p <= 53,
        -5000 <= e <= 5000,
        whole < pow2(126),
        inexact ==> whole >= pow2(p as nat),
        den > 0,
        whole * den <= num < (whole + 1) * den,
        inexact <==> num != whole * den,
    ensures
        rounds_to(scaled_num(num, e as int), scaled_den(den, e as int), p as nat, code as nat),
        code < 0x1_0000_0000_0000_0000_0000,
{
    if whole == 0 {
        proof {
            lemma_pow2_pos(p as nat);
            assert(num == 0);
            lemma_zero(den, e as int, p as nat);
        }
        return 0;
    }
    let length: u32 = bit_length(whole);
    proof {
        lemma_length_bound(whole as nat, length as nat, 126);
    }
    let excess: i32 = length as i32 + e - p as i32;
    let k: u32 = if excess > 0 {
        excess as u32
    } else {
        0
    };
    let h: u128 = power_of_two(p - 1);
    proof {
        lemma_leading_bound(p as nat);
        assert(k * h <= 5200 * 0x10_0000_0000_0000) by (nonlinear_arith)
            requires
                k <= 5200,
                h <= 0x10_0000_0000_0000,
        ;
    }
    if k as i32 <= e {
        let t: u32 = (e - k as i32) as u32;
        proof {
            if inexact && length <= p {
                if length < p {
                    lemma_pow2_strictly_increases(length as nat, p as nat);
                }
            }
            lemma_fits(whole as nat, length as nat, t as nat, p as nat);
            lemma_exact(num, den, whole as nat, e as int, k as nat, t as nat, p as nat);
        }
        return k as u128 * h + whole * power_of_two(t);
    }
    let s: u32 = (k as i32 - e) as u32;
    if s > 127 {
        proof {
            lemma_pow2_strictly_increases(126, (s - 1) as nat);
            lemma_vanishes(num, den, whole as nat, e as int, p as nat);
        }
        return 0;
    }
    let step: u128 = power_of_two(s);
    let half: u128 = power_of_two(s - 1);
    proof {
        lemma_top_bits(whole as nat, length as nat, s as nat, p as nat);
    }
    let q: u128 = whole / step;
    let low: u128 = whole % step;
    proof {
        lemma_shifted(
            num,
            den,
            whole as nat,
            e as int,
            k as nat,
            s as nat,
            p as nat,
            q as nat,
            low as nat,
        );
    }
    let code: u128 = k as u128 * h + q;
    if low > half || (low == half && (inexact || q % 2 == 1)) {
        code + 1
    } else {
        code
    }
}

} // verus!
