//! Conversions between the formats and to and from integers.

use vstd::arithmetic::div_mod::*;
use vstd::arithmetic::mul::*;
use vstd::arithmetic::power2::*;
use vstd::prelude::*;

use crate::number::binary;
use crate::number::binary::{Binary, Format};
use crate::number::rounding;

verus! {

/// The value nearest to an integer.
pub open spec fn of_integer(f: Format, n: int) -> Binary {
    f.rounded(n < 0, binary::magnitude_of(n) * pow2(f.unit()), 1)
}

/// The value of the wide format that equals one of the narrow format.
pub open spec fn widened(a: Binary) -> Binary {
    if a.is_nan(Format::Single) {
        Format::Double.nothing()
    } else if a.is_infinite(Format::Single) {
        Binary { negative: a.negative, code: Format::Double.limit() }
    } else {
        Format::Double.rounded(a.negative, a.size(Format::Single) * pow2(925), 1)
    }
}

/// The value of the narrow format nearest to one of the wide format.
pub open spec fn narrowed(a: Binary) -> Binary {
    if a.is_nan(Format::Double) {
        Format::Single.nothing()
    } else if a.is_infinite(Format::Double) {
        Binary { negative: a.negative, code: Format::Single.limit() }
    } else {
        Format::Single.rounded(a.negative, a.size(Format::Double), pow2(925))
    }
}

/// The whole part of a magnitude.
pub open spec fn whole_part(f: Format, a: Binary) -> nat {
    a.size(f) / pow2(f.unit())
}

/// Whether a magnitude has a fraction.
pub open spec fn has_fraction(f: Format, a: Binary) -> bool {
    a.size(f) % pow2(f.unit()) > 0
}

/// Whether the fraction of a magnitude is at least one half.
pub open spec fn has_half(f: Format, a: Binary) -> bool {
    2 * (a.size(f) % pow2(f.unit())) >= pow2(f.unit())
}

/// An integer held within bounds.
pub open spec fn held(n: int, low: int, high: int) -> int {
    if n < low {
        low
    } else if n > high {
        high
    } else {
        n
    }
}

/// The nearest integer, halves going away from zero.
pub open spec fn nearest_integer(f: Format, a: Binary) -> int {
    let whole = whole_part(f, a) + if has_half(f, a) { 1nat } else { 0 };
    if a.negative {
        -(whole as int)
    } else {
        whole as int
    }
}

/// The largest integer that is not above the value.
pub open spec fn floor_integer(f: Format, a: Binary) -> int {
    if a.negative {
        -(whole_part(f, a) + if has_fraction(f, a) { 1int } else { 0 })
    } else {
        whole_part(f, a) as int
    }
}

/// The smallest integer that is not below the value.
pub open spec fn ceiling_integer(f: Format, a: Binary) -> int {
    if a.negative {
        -(whole_part(f, a) as int)
    } else {
        whole_part(f, a) + if has_fraction(f, a) { 1int } else { 0 }
    }
}

/// The value without its fraction.
pub open spec fn truncated_integer(f: Format, a: Binary) -> int {
    if a.negative {
        -(whole_part(f, a) as int)
    } else {
        whole_part(f, a) as int
    }
}

/// An integer result within bounds: infinities go to the bounds, and what is
/// no number goes to zero.
pub open spec fn into_bounds(f: Format, a: Binary, exact: int, low: int, high: int) -> int {
    if a.is_nan(f) {
        0
    } else if a.is_infinite(f) {
        if a.negative {
            low
        } else {
            high
        }
    } else {
        held(exact, low, high)
    }
}

/// The value nearest to an integer.
pub fn from_integer(f: Format, n: i64) -> (value: Binary)
    ensures
        value == of_integer(f, n as int),
{
    let unit: u32 = f.unit_power();
    let whole: u128 = if n < 0 {
        (0i128 - n as i128) as u128
    } else {
        n as u128
    };
    proof {
        lemma_pow2_strictly_increases(64, 126);
        lemma2_to64();
    }
    f.round_whole(n < 0, whole, unit as i32)
}

/// Converts to the wide format.
pub fn widen(a: Binary) -> (value: Binary)
    ensures
        value == widened(a),
{
    let f: Format = Format::Single;
    let limit: u64 = f.infinity_code();
    if a.code > limit {
        return Format::Double.no_number();
    }
    if a.code == limit {
        return Binary { negative: a.negative, code: Format::Double.infinity_code() };
    }
    let (k, q): (u32, u64) = f.split(a.code);
    proof {
        lemma_pow2_strictly_increases(24, 126);
        lemma_pow2_adds(k as nat, 925);
        lemma_mul_is_associative(q as int, pow2(k as nat) as int, pow2(925) as int);
    }
    Format::Double.round_whole(a.negative, q as u128, k as i32 + 925)
}

/// Converts to the narrow format.
pub fn narrow(a: Binary) -> (value: Binary)
    ensures
        value == narrowed(a),
{
    let f: Format = Format::Double;
    let limit: u64 = f.infinity_code();
    if a.code > limit {
        return Format::Single.no_number();
    }
    if a.code == limit {
        return Binary { negative: a.negative, code: Format::Single.infinity_code() };
    }
    let (k, q): (u32, u64) = f.split(a.code);
    let e: i32 = k as i32 - 925;
    proof {
        lemma_pow2_strictly_increases(53, 126);
        lemma_pow2_pos(925);
        lemma2_to64();
        let n = rounding::scaled_num(q as nat, e as int);
        let d = rounding::scaled_den(1, e as int);
        if e >= 0 {
            rounding::lemma_cross(q as nat, 1, e as nat, 925, k as nat, 0);
        } else {
            lemma_pow2_pos((-e) as nat);
            rounding::lemma_cross(q as nat, 1, 0, 925, k as nat, (-e) as nat);
        }
        Format::Single.lemma_same(a.negative, n, d, a.size(f), pow2(925), q as nat, e as int);
    }
    Format::Single.round_whole(a.negative, q as u128, e)
}

/// The whole part and the fraction of a magnitude.
pub struct Parts {
    pub whole: u64,
    pub fraction: bool,
    pub half: bool,
}

/// Takes a finite magnitude apart. A whole part above any integer of interest
/// is only known to be large.
fn parts(f: Format, a: Binary) -> (result: Parts)
    requires
        a.is_finite(f),
    ensures
        result.fraction == has_fraction(f, a),
        result.half == has_half(f, a),
        result.whole == whole_part(f, a) || (result.whole >= 0x2_0000_0000 && whole_part(f, a)
            >= 0x2_0000_0000),
        result.whole < 0x8000_0000_0000_0000,
{
    let (k, q): (u32, u64) = f.split(a.code);
    let unit: u32 = f.unit_power();
    let p: u32 = f.precision();
    let ghost size = a.size(f);
    let ghost one = pow2(f.unit());
    proof {
        lemma_pow2_pos(f.unit());
        lemma2_to64();
        lemma2_to64_rest();
    }
    if k >= unit {
        let over: u32 = k - unit;
        proof {
            lemma_pow2_adds(over as nat, f.unit());
            lemma_pow2_pos(over as nat);
            let w = pow2(over as nat);
            assert(size == (q * w) * one) by (nonlinear_arith)
                requires
                    size == q * pow2(k as nat),
                    pow2(k as nat) == w * one,
            ;
            lemma_div_multiples_vanish((q * w) as int, one as int);
            lemma_mod_multiples_basic((q * w) as int, one as int);
            lemma_mul_is_commutative((q * w) as int, one as int);
        }
        if over > 10 {
            proof {
                lemma_pow2_strictly_increases(10, over as nat);
                assert(q * pow2(over as nat) >= 0x80_0000 * 0x400) by (nonlinear_arith)
                    requires
                        q >= 0x80_0000,
                        pow2(over as nat) >= 0x400,
                ;
            }
            return Parts { whole: 0x2_0000_0000, fraction: false, half: false };
        }
        proof {
            if over < 10 {
                lemma_pow2_strictly_increases(over as nat, 10);
            }
            assert(q * pow2(over as nat) < 0x20_0000_0000_0000 * 0x400) by (nonlinear_arith)
                requires
                    q < 0x20_0000_0000_0000,
                    0 < pow2(over as nat) <= 0x400,
            ;
        }
        return Parts {
            whole: (q as u128 * rounding::power_of_two(over)) as u64,
            fraction: false,
            half: false,
        };
    }
    let s: u32 = unit - k;
    proof {
        lemma_pow2_adds(s as nat, k as nat);
        lemma_pow2_pos(k as nat);
        lemma_pow2_pos(s as nat);
    }
    if s > p {
        proof {
            // Less than one half.
            lemma_pow2_unfold(s as nat);
            if s - 1 > p {
                lemma_pow2_strictly_increases(p as nat, (s - 1) as nat);
            }
            let w = pow2(k as nat);
            assert(2 * size < one) by (nonlinear_arith)
                requires
                    size == q * w,
                    one == pow2(s as nat) * w,
                    2 * q < pow2(s as nat),
                    w > 0,
            ;
            lemma_small_mod(size, one);
            lemma_basic_div(size as int, one as int);
            assert(size > 0 <==> q > 0) by (nonlinear_arith)
                requires
                    size == q * w,
                    w > 0,
                    q >= 0,
            ;
        }
        return Parts { whole: 0, fraction: q > 0, half: false };
    }
    let step: u64 = rounding::power_of_two(s) as u64;
    proof {
        if s < 53 {
            lemma_pow2_strictly_increases(s as nat, 53);
        }
    }
    let whole: u64 = q / step;
    let low: u64 = q % step;
    proof {
        let w = pow2(k as nat);
        lemma_fundamental_div_mod(q as int, step as int);
        lemma_mod_bound(q as int, step as int);
        let rest = low * w;
        assert(size == whole * one + rest) by (nonlinear_arith)
            requires
                size == q * w,
                q == step * whole + low,
                one == step * w,
                rest == low * w,
        ;
        assert(0 <= rest < one) by (nonlinear_arith)
            requires
                rest == low * w,
                one == step * w,
                low < step,
                w > 0,
                low >= 0,
        ;
        lemma_fundamental_div_mod_converse(size as int, one as int, whole as int, rest as int);
        assert(rest > 0 <==> low > 0) by (nonlinear_arith)
            requires
                rest == low * w,
                w > 0,
                low >= 0,
        ;
        assert(2 * rest >= one <==> 2 * low >= step) by (nonlinear_arith)
            requires
                rest == low * w,
                one == step * w,
                w > 0,
        ;
        assert(whole <= q) by (nonlinear_arith)
            requires
                q == step * whole + low,
                step >= 1,
                low >= 0,
                whole >= 0,
        ;
    }
    Parts { whole, fraction: low > 0, half: low >= step - low }
}

/// Rounds to an unsigned integer of 32 bits, halves going away from zero.
pub fn round_to_u32(f: Format, a: Binary) -> (result: u32)
    ensures
        result == into_bounds(f, a, nearest_integer(f, a), 0, u32::MAX as int),
{
    let limit: u64 = f.infinity_code();
    if a.code > limit {
        return 0;
    }
    if a.code == limit {
        return if a.negative { 0 } else { u32::MAX };
    }
    let parts: Parts = parts(f, a);
    if a.negative {
        return 0;
    }
    let whole: u64 = parts.whole + if parts.half { 1u64 } else { 0 };
    if whole > u32::MAX as u64 {
        u32::MAX
    } else {
        whole as u32
    }
}

fn signed_within(negative: bool, whole: u64) -> (result: i32)
    requires
        whole < 0x8000_0000_0000_0001,
    ensures
        result == held(
            if negative { -(whole as int) } else { whole as int },
            i32::MIN as int,
            i32::MAX as int,
        ),
{
    if negative {
        if whole > 0x8000_0000 {
            i32::MIN
        } else {
            (0i64 - whole as i64) as i32
        }
    } else if whole > 0x7fff_ffff {
        i32::MAX
    } else {
        whole as i32
    }
}

/// Rounds to a signed integer of 32 bits, halves going away from zero.
pub fn round_to_i32(f: Format, a: Binary) -> (result: i32)
    ensures
        result == into_bounds(f, a, nearest_integer(f, a), i32::MIN as int, i32::MAX as int),
{
    let limit: u64 = f.infinity_code();
    if a.code > limit {
        return 0;
    }
    if a.code == limit {
        return if a.negative { i32::MIN } else { i32::MAX };
    }
    let parts: Parts = parts(f, a);
    signed_within(a.negative, parts.whole + if parts.half { 1u64 } else { 0 })
}

/// Rounds down to a signed integer of 32 bits.
pub fn floor_to_i32(f: Format, a: Binary) -> (result: i32)
    ensures
        result == into_bounds(f, a, floor_integer(f, a), i32::MIN as int, i32::MAX as int),
{
    let limit: u64 = f.infinity_code();
    if a.code > limit {
        return 0;
    }
    if a.code == limit {
        return if a.negative { i32::MIN } else { i32::MAX };
    }
    let parts: Parts = parts(f, a);
    signed_within(a.negative, parts.whole + if a.negative && parts.fraction { 1u64 } else { 0 })
}

/// Rounds up to a signed integer of 32 bits.
pub fn ceil_to_i32(f: Format, a: Binary) -> (result: i32)
    ensures
        result == into_bounds(f, a, ceiling_integer(f, a), i32::MIN as int, i32::MAX as int),
{
    let limit: u64 = f.infinity_code();
    if a.code > limit {
        return 0;
    }
    if a.code == limit {
        return if a.negative { i32::MIN } else { i32::MAX };
    }
    let parts: Parts = parts(f, a);
    signed_within(a.negative, parts.whole + if !a.negative && parts.fraction { 1u64 } else { 0 })
}

/// Drops the fraction, giving a signed integer of 32 bits.
pub fn truncate_to_i32(f: Format, a: Binary) -> (result: i32)
    ensures
        result == into_bounds(f, a, truncated_integer(f, a), i32::MIN as int, i32::MAX as int),
{
    let limit: u64 = f.infinity_code();
    if a.code > limit {
        return 0;
    }
    if a.code == limit {
        return if a.negative { i32::MIN } else { i32::MAX };
    }
    let parts: Parts = parts(f, a);
    signed_within(a.negative, parts.whole)
}

} // verus!
