//! Square roots, rounded to the nearest value of a format.

use vstd::arithmetic::mul::*;
use vstd::arithmetic::power2::*;
use vstd::prelude::*;

use crate::number::binary::{Binary, Format};
use crate::number::rounding;

verus! {

/// `code` is the value nearest to the square root of `square`, both in units,
/// and the even one of the two nearest where there are two.
pub open spec fn root_rounds_to(square: nat, p: nat, code: nat) -> bool {
    &&& code > 0 ==> {
        let middle = rounding::magnitude((code - 1) as nat, p) + rounding::magnitude(code, p);
        middle * middle < 4 * square || (middle * middle == 4 * square && code % 2 == 0)
    }
    &&& {
        let middle = rounding::magnitude(code, p) + rounding::magnitude(code + 1, p);
        4 * square < middle * middle || (middle * middle == 4 * square && code % 2 == 0)
    }
}

/// The code nearest to the square root of `square`.
pub open spec fn nearest_root(square: nat, p: nat) -> nat {
    choose|code: nat| root_rounds_to(square, p, code)
}

/// The square root of a value.
pub open spec fn root(f: Format, a: Binary) -> Binary {
    if a.is_nan(f) {
        f.nothing()
    } else if a.code == 0 {
        a
    } else if a.negative {
        f.nothing()
    } else if a.is_infinite(f) {
        a
    } else {
        let code = nearest_root(a.size(f) * pow2(f.unit()), f.p());
        Binary {
            negative: false,
            code: if code < f.limit() {
                code as u64
            } else {
                f.limit()
            },
        }
    }
}

/// One code is nearest to a root, and no other.
pub proof fn root_is_unique(square: nat, p: nat, a: nat, b: nat)
    requires
        p >= 2,
        root_rounds_to(square, p, a),
        root_rounds_to(square, p, b),
    ensures
        a == b,
{
    if a < b {
        lemma_roots_apart(square, p, a, b);
    } else if b < a {
        lemma_roots_apart(square, p, b, a);
    }
}

proof fn lemma_roots_apart(square: nat, p: nat, a: nat, b: nat)
    requires
        p >= 2,
        a < b,
    ensures
        !(root_rounds_to(square, p, a) && root_rounds_to(square, p, b)),
{
    let above = rounding::magnitude(a, p) + rounding::magnitude(a + 1, p);
    let below = rounding::magnitude((b - 1) as nat, p) + rounding::magnitude(b, p);
    if a + 1 < b {
        rounding::lemma_increasing(a, (b - 1) as nat, p);
        rounding::lemma_increasing(a + 1, b, p);
        assert(above * above < below * below) by (nonlinear_arith)
            requires
                above < below,
        ;
    }
}

/// The integer square root.
fn whole_root(number: u128) -> (result: u128)
    requires
        number < pow2(126),
    ensures
        result * result <= number < (result + 1) * (result + 1),
        result < 0x1_0000_0000_0000_0000,
{
    let mut low: u128 = 0;
    let mut high: u128 = 0x8000_0000_0000_0000;
    proof {
        lemma2_to64();
        lemma2_to64_rest();
        lemma_pow2_adds(63, 63);
        assert(0x8000_0000_0000_0000 * 0x8000_0000_0000_0000 == pow2(126));
    }
    while high - low > 1
        invariant
            low < high <= 0x8000_0000_0000_0000,
            low * low <= number < high * high,
        decreases high - low,
    {
        let middle: u128 = low + (high - low) / 2;
        assert(middle * middle <= 0x8000_0000_0000_0000 * 0x8000_0000_0000_0000)
            by (nonlinear_arith)
            requires
                middle <= 0x8000_0000_0000_0000,
        ;
        if middle * middle <= number {
            low = middle;
        } else {
            high = middle;
        }
    }
    low
}

/// The midpoint above a code with a large exponent is an even multiple of a
/// smaller power of two.
proof fn lemma_even_midpoint(code: nat, e: nat, p: nat) -> (j: nat)
    requires
        p >= 2,
        rounding::exponent(code, p) >= e + 1,
    ensures
        rounding::magnitude(code, p) + rounding::magnitude(code + 1, p) == (2 * j) * pow2(e),
{
    rounding::lemma_step(code, p);
    let x = rounding::exponent(code, p);
    let q = rounding::significand(code, p);
    let over = (x - e - 1) as nat;
    lemma_pow2_adds(over, e + 1);
    lemma_pow2_unfold(e + 1);
    let j = (2 * q + 1) * pow2(over);
    let sum = rounding::magnitude(code, p) + rounding::magnitude(code + 1, p);
    assert(sum == (2 * j) * pow2(e)) by (nonlinear_arith)
        requires
            sum == 2 * (q * pow2(x)) + pow2(x),
            pow2(x) == pow2(over) * (2 * pow2(e)),
            j == (2 * q + 1) * pow2(over),
    ;
    j
}

/// A code that a large value rounds to has a large exponent.
proof fn lemma_large_exponent(num: nat, e: nat, p: nat, code: nat)
    requires
        p >= 2,
        num >= 2 * pow2(p + 1),
        rounding::rounds_to(num * pow2(e), 2, p, code),
    ensures
        rounding::exponent(code, p) >= e + 2,
{
    let x = rounding::exponent(code, p);
    if x < e + 2 {
        rounding::lemma_decode(code, p);
        rounding::lemma_leading(p);
        rounding::lemma_step(code, p);
        lemma_pow2_unfold(e + 1);
        lemma_pow2_pos(e + 1);
        lemma_pow2_unfold(p + 1);
        if x < e + 1 {
            lemma_pow2_strictly_increases(x, e + 1);
        }
        let q = rounding::significand(code, p);
        let top = pow2(p);
        let w = pow2(e);
        let here = rounding::magnitude(code, p);
        let next = rounding::magnitude(code + 1, p);
        assert(here == q * pow2(x));
        assert(q * pow2(x) + pow2(x) == (q + 1) * pow2(x)) by (nonlinear_arith);
        assert((q + 1) * pow2(x) <= top * (2 * w)) by (nonlinear_arith)
            requires
                q + 1 <= top,
                pow2(x) <= 2 * w,
        ;
        assert(num * w >= (4 * top) * w) by (nonlinear_arith)
            requires
                num >= 4 * top,
        ;
        assert(top * (2 * w) == 2 * (top * w)) by (nonlinear_arith);
        assert((4 * top) * w == 4 * (top * w)) by (nonlinear_arith);
        assert(2 * (here + next) < 2 * (num * w));
    }
}

/// From the rounding of a fraction just above the whole root to the rounding
/// of the root.
proof fn lemma_root(number: nat, r: nat, e: nat, p: nat, code: nat)
    requires
        p >= 2,
        r * r < number < (r + 1) * (r + 1),
        r >= pow2(p + 1),
        rounding::rounds_to((2 * r + 1) * pow2(e), 2, p, code),
    ensures
        root_rounds_to(number * (pow2(e) * pow2(e)), p, code),
{
    let w = pow2(e);
    lemma_pow2_pos(e);
    let num = (2 * r + 1) as nat;
    let square = number * (w * w);
    lemma_large_exponent(num, e, p, code);
    let above = rounding::magnitude(code, p) + rounding::magnitude(code + 1, p);
    let j = lemma_even_midpoint(code, e, p);
    assert(num < 2 * j) by (nonlinear_arith)
        requires
            num * w <= (2 * j) * w,
            num % 2 == 1,
            w > 0,
    ;
    lemma_square_above(number, r, j, w);
    if code > 0 {
        let below_code = (code - 1) as nat;
        rounding::lemma_step(code, p);
        let x = rounding::exponent(below_code, p);
        if x < e + 1 {
            lemma_pow2_unfold(x + 1);
            lemma_pow2_strictly_increases(x + 1, rounding::exponent(code, p));
        }
        let i = lemma_even_midpoint(below_code, e, p);
        assert(2 * i < num) by (nonlinear_arith)
            requires
                (2 * i) * w <= num * w,
                num % 2 == 1,
                w > 0,
        ;
        lemma_square_below(number, r, i, w);
    }
}

proof fn lemma_square_above(number: nat, r: nat, j: nat, w: nat)
    requires
        number < (r + 1) * (r + 1),
        2 * r + 1 < 2 * j,
        w > 0,
    ensures
        4 * (number * (w * w)) < ((2 * j) * w) * ((2 * j) * w),
{
    assert(j * j >= (r + 1) * (r + 1)) by (nonlinear_arith)
        requires
            j >= r + 1,
    ;
    let s = j * j;
    let v = w * w;
    assert(v > 0) by (nonlinear_arith)
        requires
            w > 0,
            v == w * w,
    ;
    assert(((2 * j) * w) * ((2 * j) * w) == 4 * (s * v)) by (nonlinear_arith)
        requires
            s == j * j,
            v == w * w,
    ;
    assert(number * v < s * v) by (nonlinear_arith)
        requires
            number < s,
            v > 0,
    ;
}

proof fn lemma_square_below(number: nat, r: nat, i: nat, w: nat)
    requires
        r * r < number,
        2 * i < 2 * r + 1,
        w > 0,
    ensures
        ((2 * i) * w) * ((2 * i) * w) < 4 * (number * (w * w)),
{
    assert(i * i <= r * r) by (nonlinear_arith)
        requires
            i <= r,
    ;
    let s = i * i;
    let v = w * w;
    assert(v > 0) by (nonlinear_arith)
        requires
            w > 0,
            v == w * w,
    ;
    assert(((2 * i) * w) * ((2 * i) * w) == 4 * (s * v)) by (nonlinear_arith)
        requires
            s == i * i,
            v == w * w,
    ;
    assert(s * v < number * v) by (nonlinear_arith)
        requires
            s < number,
            v > 0,
    ;
}

/// From the rounding of an exact root.
proof fn lemma_exact_root(r: nat, e: nat, p: nat, code: nat)
    requires
        p >= 2,
        rounding::rounds_to((2 * r) * pow2(e), 2, p, code),
    ensures
        root_rounds_to((r * r) * (pow2(e) * pow2(e)), p, code),
{
    let w = pow2(e);
    let x = r * w;
    let square = (r * r) * (w * w);
    assert((2 * r) * w == 2 * x) by (nonlinear_arith)
        requires
            x == r * w,
    ;
    assert(4 * square == (2 * x) * (2 * x)) by (nonlinear_arith)
        requires
            square == (r * r) * (w * w),
            x == r * w,
    ;
    let above = rounding::magnitude(code, p) + rounding::magnitude(code + 1, p);
    lemma_squares(2 * x, above);
    if code > 0 {
        let below = rounding::magnitude((code - 1) as nat, p) + rounding::magnitude(code, p);
        lemma_squares(below, 2 * x);
    }
}

proof fn lemma_squares(a: nat, b: nat)
    ensures
        a < b ==> a * a < b * b,
        a == b ==> a * a == b * b,
{
    if a < b {
        assert(a * a < b * b) by (nonlinear_arith)
            requires
                a < b,
        ;
    }
}

/// A number of `length` bits, shifted to an amount of bits.
proof fn lemma_shifted_number(q: nat, length: nat, shift: nat, p: nat)
    requires
        length >= 1,
        2 * p + 3 <= length + shift < 126,
        pow2((length - 1) as nat) <= q < pow2(length),
    ensures
        pow2(p + 1) * pow2(p + 1) <= q * pow2(shift) < pow2(126),
        pow2(126) < 0x8000_0000_0000_0000_0000_0000_0000_0000,
{
    lemma_pow2_adds(length, shift);
    lemma_pow2_adds((length - 1) as nat, shift);
    lemma_pow2_adds(p + 1, p + 1);
    lemma_pow2_pos(shift);
    let w = pow2(shift);
    assert(q * w < pow2(length) * w) by (nonlinear_arith)
        requires
            q < pow2(length),
            w > 0,
    ;
    assert(q * w >= pow2((length - 1) as nat) * w) by (nonlinear_arith)
        requires
            q >= pow2((length - 1) as nat),
    ;
    lemma_pow2_strictly_increases(length + shift, 126);
    if length + shift - 1 > 2 * p + 2 {
        lemma_pow2_strictly_increases(2 * p + 2, (length + shift - 1) as nat);
    }
    lemma_pow2_strictly_increases(126, 127);
    rounding::lemma_power_fits(127);
}

proof fn lemma_root_size(r: nat, number: nat, p: nat)
    requires
        pow2(p + 1) * pow2(p + 1) <= number < (r + 1) * (r + 1),
        r < 0x1_0000_0000_0000_0000,
    ensures
        r >= pow2(p + 1),
        r >= pow2(p),
        r < pow2(126),
{
    let bound = pow2(p + 1);
    assert(r + 1 > bound) by (nonlinear_arith)
        requires
            bound * bound < (r + 1) * (r + 1),
    ;
    lemma_pow2_unfold(p + 1);
    lemma_pow2_strictly_increases(64, 126);
    lemma2_to64();
}

proof fn lemma_square(q: nat, k: nat, unit: nat, shift: nat, e: nat)
    requires
        k + unit == shift + 2 * e,
    ensures
        (q * pow2(k)) * pow2(unit) == (q * pow2(shift)) * (pow2(e) * pow2(e)),
{
    lemma_pow2_adds(k, unit);
    lemma_pow2_adds(e, e);
    lemma_pow2_adds(shift, e + e);
    let (a, b, c, d) = (pow2(k), pow2(unit), pow2(shift), pow2(e) * pow2(e));
    assert((q * a) * b == q * (a * b)) by (nonlinear_arith);
    assert((q * c) * d == q * (c * d)) by (nonlinear_arith);
}

/// The code of the root of `q * 2^k` units.
fn root_code(f: Format, k: u32, q: u64) -> (code: u128)
    requires
        0 < q < pow2(f.p()),
        k <= 2045,
    ensures
        root_rounds_to((q as nat * pow2(k as nat)) * pow2(f.unit()), f.p(), code as nat),
{
    let unit: u32 = f.unit_power();
    let p: u32 = f.precision();
    let length: u32 = rounding::bit_length(q as u128);
    proof {
        rounding::lemma_length_bound(q as nat, length as nat, f.p());
    }
    // An even number of bits is left over, so that their root is whole.
    let spare: u32 = 2 * p + 3 - length;
    let shift: u32 = if (k + unit) % 2 == spare % 2 {
        spare
    } else {
        spare + 1
    };
    let e: u32 = (k + unit - shift) / 2;
    proof {
        lemma_shifted_number(q as nat, length as nat, shift as nat, f.p());
    }
    let number: u128 = q as u128 * rounding::power_of_two(shift);
    let r: u128 = whole_root(number);
    assert(r * r <= 0xffff_ffff_ffff_ffff * 0xffff_ffff_ffff_ffff) by (nonlinear_arith)
        requires
            r <= 0xffff_ffff_ffff_ffff,
    ;
    let inexact: bool = r * r != number;
    proof {
        lemma_root_size(r as nat, number as nat, f.p());
        lemma_square(q as nat, k as nat, f.unit(), shift as nat, e as nat);
    }
    let ghost num = if inexact { (2 * r + 1) as nat } else { (2 * r) as nat };
    let code: u128 = rounding::round_binary(r, inexact, e as i32, p, Ghost(num), Ghost(2nat));
    proof {
        if inexact {
            lemma_root(number as nat, r as nat, e as nat, f.p(), code as nat);
        } else {
            lemma_exact_root(r as nat, e as nat, f.p(), code as nat);
        }
    }
    code
}

/// Takes the square root of a value.
pub fn square_root(f: Format, a: Binary) -> (value: Binary)
    ensures
        value == root(f, a),
{
    let limit: u64 = f.infinity_code();
    if a.code > limit {
        return f.no_number();
    }
    if a.code == 0 {
        return a;
    }
    if a.negative {
        return f.no_number();
    }
    if a.code == limit {
        return a;
    }
    let (k, q): (u32, u64) = f.split(a.code);
    let code: u128 = root_code(f, k, q);
    proof {
        let square = a.size(f) * pow2(f.unit());
        root_is_unique(square, f.p(), nearest_root(square, f.p()), code as nat);
    }
    if code < limit as u128 {
        Binary { negative: false, code: code as u64 }
    } else {
        Binary { negative: false, code: limit }
    }
}

} // verus!
