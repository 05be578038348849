//! Arithmetic on binary numbers in the two interchange formats: exact results
//! are rounded to the nearest value, ties to even, with infinities and values
//! that are no number.

use vstd::arithmetic::div_mod::*;
use vstd::arithmetic::mul::*;
use vstd::arithmetic::power2::*;
use vstd::prelude::*;

use crate::number::rounding;

verus! {

/// The formats of 32 and of 64 bits.
#[derive(Clone, Copy, Debug, PartialEq, Eq, Structural)]
pub enum Format {
    Single,
    Double,
}

/// A value of a format: its sign, and the code of its magnitude. Codes above
/// the format's limit stand for no number.
#[derive(Clone, Copy, Debug, PartialEq, Eq, Structural)]
pub struct Binary {
    pub negative: bool,
    pub code: u64,
}

impl Format {
    /// The number of significant bits.
    pub open spec fn p(self) -> nat {
        match self {
            Format::Single => 24,
            Format::Double => 53,
        }
    }

    /// The smallest positive value is two to the minus this power.
    pub open spec fn unit(self) -> nat {
        match self {
            Format::Single => 149,
            Format::Double => 1074,
        }
    }

    /// The code of infinity.
    pub open spec fn limit(self) -> u64 {
        match self {
            Format::Single => 0x7f80_0000,
            Format::Double => 0x7ff0_0000_0000_0000,
        }
    }

    /// What stands for a result that is no number.
    pub open spec fn nothing(self) -> Binary {
        match self {
            Format::Single => Binary { negative: false, code: 0x7fc0_0000 },
            Format::Double => Binary { negative: false, code: 0x7ff8_0000_0000_0000 },
        }
    }

    /// The value nearest to `num / den` units, or infinity where that is out
    /// of range.
    pub open spec fn rounded(self, negative: bool, num: nat, den: nat) -> Binary {
        let code = rounding::nearest(num, den, self.p());
        Binary {
            negative,
            code: if code < self.limit() {
                code as u64
            } else {
                self.limit()
            },
        }
    }

    /// The sum of two values.
    pub open spec fn sum(self, a: Binary, b: Binary) -> Binary {
        if a.is_nan(self) || b.is_nan(self) {
            self.nothing()
        } else if a.is_infinite(self) {
            if b.is_infinite(self) && a.negative != b.negative {
                self.nothing()
            } else {
                a
            }
        } else if b.is_infinite(self) {
            b
        } else {
            let exact = a.units(self) + b.units(self);
            if exact == 0 {
                Binary { negative: a.negative && b.negative, code: 0 }
            } else {
                self.rounded(exact < 0, magnitude_of(exact), 1)
            }
        }
    }

    /// The product of two values.
    pub open spec fn product(self, a: Binary, b: Binary) -> Binary {
        let negative = a.negative != b.negative;
        if a.is_nan(self) || b.is_nan(self) {
            self.nothing()
        } else if a.is_infinite(self) || b.is_infinite(self) {
            if a.code == 0 || b.code == 0 {
                self.nothing()
            } else {
                Binary { negative, code: self.limit() }
            }
        } else {
            self.rounded(negative, a.size(self) * b.size(self), pow2(self.unit()))
        }
    }

    /// The quotient of two values.
    pub open spec fn quotient(self, a: Binary, b: Binary) -> Binary {
        let negative = a.negative != b.negative;
        if a.is_nan(self) || b.is_nan(self) {
            self.nothing()
        } else if a.is_infinite(self) {
            if b.is_infinite(self) {
                self.nothing()
            } else {
                Binary { negative, code: self.limit() }
            }
        } else if b.is_infinite(self) {
            Binary { negative, code: 0 }
        } else if b.code == 0 {
            if a.code == 0 {
                self.nothing()
            } else {
                Binary { negative, code: self.limit() }
            }
        } else {
            self.rounded(negative, a.size(self) * pow2(self.unit()), b.size(self))
        }
    }
}

/// The absolute value of an integer.
pub open spec fn magnitude_of(x: int) -> nat {
    if x < 0 {
        (-x) as nat
    } else {
        x as nat
    }
}

impl Binary {
    pub open spec fn is_nan(self, f: Format) -> bool {
        self.code > f.limit()
    }

    pub open spec fn is_infinite(self, f: Format) -> bool {
        self.code == f.limit()
    }

    pub open spec fn is_finite(self, f: Format) -> bool {
        self.code < f.limit()
    }

    /// The magnitude in units.
    pub open spec fn size(self, f: Format) -> nat {
        rounding::magnitude(self.code as nat, f.p())
    }

    /// The value in units.
    pub open spec fn units(self, f: Format) -> int {
        if self.negative {
            -(self.size(f) as int)
        } else {
            self.size(f) as int
        }
    }

    /// The position of a number in the order of all numbers; both zeros have
    /// the same position.
    pub open spec fn rank(self) -> int {
        if self.negative {
            -(self.code as int)
        } else {
            self.code as int
        }
    }
}

/// The order of codes is the order of values.
pub proof fn rank_orders_units(a: Binary, b: Binary, f: Format)
    ensures
        a.rank() < b.rank() <==> a.units(f) < b.units(f),
        a.rank() == b.rank() <==> a.units(f) == b.units(f),
{
    let p = f.p();
    rounding::lemma_zero_magnitude(p);
    if a.code > 0 {
        rounding::lemma_increasing(0, a.code as nat, p);
    }
    if b.code > 0 {
        rounding::lemma_increasing(0, b.code as nat, p);
    }
    if a.code < b.code {
        rounding::lemma_increasing(a.code as nat, b.code as nat, p);
    }
    if b.code < a.code {
        rounding::lemma_increasing(b.code as nat, a.code as nat, p);
    }
}

impl Format {
    pub fn precision(self) -> (p: u32)
        ensures
            p == self.p(),
            2 <= p <= 53,
    {
        match self {
            Format::Single => 24,
            Format::Double => 53,
        }
    }

    pub fn unit_power(self) -> (power: u32)
        ensures
            power == self.unit(),
            power <= 1074,
    {
        match self {
            Format::Single => 149,
            Format::Double => 1074,
        }
    }

    pub fn infinity_code(self) -> (code: u64)
        ensures
            code == self.limit(),
    {
        match self {
            Format::Single => 0x7f80_0000,
            Format::Double => 0x7ff0_0000_0000_0000,
        }
    }

    pub fn no_number(self) -> (value: Binary)
        ensures
            value == self.nothing(),
    {
        match self {
            Format::Single => Binary { negative: false, code: 0x7fc0_0000 },
            Format::Double => Binary { negative: false, code: 0x7ff8_0000_0000_0000 },
        }
    }

    /// The exponent and the significand of a code.
    pub fn split(self, code: u64) -> (parts: (u32, u64))
        requires
            code < self.limit(),
        ensures
            parts.0 == rounding::exponent(code as nat, self.p()),
            parts.1 == rounding::significand(code as nat, self.p()),
            parts.0 <= 2045,
            parts.1 < pow2(self.p()),
            parts.0 > 0 ==> parts.1 >= rounding::leading(self.p()),
            parts.1 == 0 <==> code == 0,
            code as nat == parts.0 * rounding::leading(self.p()) + parts.1,
            rounding::magnitude(code as nat, self.p()) == parts.1 * pow2(parts.0 as nat),
    {
        let p: u32 = self.precision();
        let h: u64 = match self {
            Format::Single => 0x80_0000,
            Format::Double => 0x10_0000_0000_0000,
        };
        proof {
            lemma2_to64();
            lemma2_to64_rest();
            rounding::lemma_leading(self.p());
            rounding::lemma_decode(code as nat, self.p());
        }
        if code < h {
            assert(0 * rounding::leading(self.p()) == 0);
            (0, code)
        } else {
            let k: u64 = code / h - 1;
            proof {
                lemma_fundamental_div_mod(code as int, h as int);
                lemma_mod_bound(code as int, h as int);
                assert(k * h <= code) by (nonlinear_arith)
                    requires
                        code == h * (k + 1) + code % h,
                        code % h >= 0,
                ;
                assert(k <= 2045) by (nonlinear_arith)
                    requires
                        k * h + h < 2047 * h,
                        h > 0,
                ;
            }
            (k as u32, code - k * h)
        }
    }
}

impl Format {
    /// A rounded code as a value of the format.
    fn clip(
        self,
        negative: bool,
        code: u128,
        Ghost(num): Ghost<nat>,
        Ghost(den): Ghost<nat>,
    ) -> (value: Binary)
        requires
            den > 0,
            rounding::rounds_to(num, den, self.p(), code as nat),
        ensures
            value == self.rounded(negative, num, den),
    {
        proof {
            rounding::lemma_nearest(num, den, self.p(), code as nat);
        }
        let limit: u64 = self.infinity_code();
        if code < limit as u128 {
            Binary { negative, code: code as u64 }
        } else {
            Binary { negative, code: limit }
        }
    }

    /// Rounds `whole * 2^e` units.
    pub fn round_whole(self, negative: bool, whole: u128, e: i32) -> (value: Binary)
        requires
            whole < pow2(126),
            -5000 <= e <= 5000,
        ensures
            value == self.rounded(
                negative,
                rounding::scaled_num(whole as nat, e as int),
                rounding::scaled_den(1, e as int),
            ),
    {
        let ghost num = whole as nat;
        proof {
            if e < 0 {
                lemma_pow2_pos((-e) as nat);
            }
        }
        let code: u128 = rounding::round_binary(
            whole,
            false,
            e,
            self.precision(),
            Ghost(num),
            Ghost(1nat),
        );
        self.clip(
            negative,
            code,
            Ghost(rounding::scaled_num(num, e as int)),
            Ghost(rounding::scaled_den(1, e as int)),
        )
    }

    proof fn lemma_itself(self, a: Binary)
        requires
            a.is_finite(self),
        ensures
            self.rounded(a.negative, a.size(self), 1) == a,
            a.size(self) == 0 <==> a.code == 0,
    {
        rounding::lemma_held(a.code as nat, self.p());
        rounding::lemma_nearest(a.size(self), 1, self.p(), a.code as nat);
        rounding::lemma_zero_magnitude(self.p());
        if a.code > 0 {
            rounding::lemma_increasing(0, a.code as nat, self.p());
        }
    }

    /// The sum where `a` has the larger exponent and neither is zero.
    fn add_ordered(self, a: Binary, b: Binary) -> (value: Binary)
        requires
            a.is_finite(self),
            b.is_finite(self),
            a.code > 0,
            b.code > 0,
            rounding::exponent(a.code as nat, self.p()) >= rounding::exponent(
                b.code as nat,
                self.p(),
            ),
        ensures
            value == self.sum(a, b),
    {
        let (ka, qa): (u32, u64) = self.split(a.code);
        let (kb, qb): (u32, u64) = self.split(b.code);
        let gap: u32 = ka - kb;
        let p: u32 = self.precision();
        let ghost exact = a.units(self) + b.units(self);
        let ghost wa = pow2(ka as nat);
        let ghost wb = pow2(kb as nat);
        let ghost wg = pow2(gap as nat);
        proof {
            self.lemma_itself(a);
            self.lemma_itself(b);
            lemma_pow2_adds(kb as nat, gap as nat);
            lemma_pow2_pos(kb as nat);
            lemma_pow2_pos(gap as nat);
        }
        if gap > p + 3 {
            proof {
                // The smaller value is below a quarter step of the larger.
                lemma_pow2_adds(self.p(), kb as nat);
                lemma_pow2_adds(self.p() + kb as nat, 2);
                lemma2_to64();
                let least = self.p() + kb as nat + 2;
                lemma_pow2_strictly_increases(least, ka as nat);
                assert(b.size(self) < pow2(self.p()) * wb) by (nonlinear_arith)
                    requires
                        b.size(self) == qb * wb,
                        qb < pow2(self.p()),
                        wb > 0,
                ;
                assert(a.size(self) >= wa) by (nonlinear_arith)
                    requires
                        a.size(self) == qa * wa,
                        qa >= 1,
                ;
                rounding::lemma_near(magnitude_of(exact), a.code as nat, self.p());
                rounding::lemma_nearest(magnitude_of(exact), 1, self.p(), a.code as nat);
            }
            return a;
        }
        proof {
            lemma_pow2_strictly_increases(gap as nat, 57);
            lemma2_to64_rest();
            lemma_pow2_adds(57, 53);
            lemma_pow2_adds(110, 16);
            lemma2_to64();
            if self.p() < 53 {
                lemma_pow2_strictly_increases(self.p(), 53);
            }
            assert(qa * wg < pow2(57) * pow2(53)) by (nonlinear_arith)
                requires
                    wg < pow2(57),
                    qa < pow2(53),
            ;
            assert(pow2(57) * pow2(53) == pow2(110));
            assert(pow2(126) == pow2(110) * 0x10000);
            assert(pow2(110) >= pow2(53) * 2) by {
                lemma_pow2_strictly_increases(54, 110);
                lemma_pow2_unfold(54);
            }
            assert(a.size(self) == (qa * wg) * wb) by (nonlinear_arith)
                requires
                    a.size(self) == qa * wa,
                    wa == wb * wg,
            ;
        }
        let high: u128 = qa as u128 * rounding::power_of_two(gap);
        let low: u128 = qb as u128;
        if a.negative == b.negative {
            proof {
                assert((high + low) * wb == high * wb + low * wb) by (nonlinear_arith);
                assert(high * wb > 0) by (nonlinear_arith)
                    requires
                        high >= 1,
                        wb > 0,
                {
                }
            }
            self.round_whole(a.negative, high + low, kb as i32)
        } else if high > low {
            proof {
                assert((high - low) * wb == high * wb - low * wb) by (nonlinear_arith);
                assert((high - low) * wb > 0) by (nonlinear_arith)
                    requires
                        high > low,
                        wb > 0,
                ;
            }
            self.round_whole(a.negative, high - low, kb as i32)
        } else if low > high {
            proof {
                assert((low - high) * wb == low * wb - high * wb) by (nonlinear_arith);
                assert((low - high) * wb > 0) by (nonlinear_arith)
                    requires
                        low > high,
                        wb > 0,
                ;
            }
            self.round_whole(b.negative, low - high, kb as i32)
        } else {
            Binary { negative: false, code: 0 }
        }
    }

    /// Adds two values.
    pub fn plus(self, a: Binary, b: Binary) -> (value: Binary)
        ensures
            value == self.sum(a, b),
    {
        let limit: u64 = self.infinity_code();
        if a.code > limit || b.code > limit {
            return self.no_number();
        }
        if a.code == limit {
            if b.code == limit && a.negative != b.negative {
                return self.no_number();
            }
            return a;
        }
        if b.code == limit {
            return b;
        }
        proof {
            self.lemma_itself(a);
            self.lemma_itself(b);
        }
        if a.code == 0 && b.code == 0 {
            return Binary { negative: a.negative && b.negative, code: 0 };
        }
        if a.code == 0 {
            return b;
        }
        if b.code == 0 {
            return a;
        }
        let (ka, qa): (u32, u64) = self.split(a.code);
        let (kb, qb): (u32, u64) = self.split(b.code);
        if ka >= kb {
            self.add_ordered(a, b)
        } else {
            self.add_ordered(b, a)
        }
    }
}

impl Format {
    /// Multiplies two values.
    pub fn times(self, a: Binary, b: Binary) -> (value: Binary)
        ensures
            value == self.product(a, b),
    {
        let limit: u64 = self.infinity_code();
        let negative: bool = a.negative != b.negative;
        if a.code > limit || b.code > limit {
            return self.no_number();
        }
        if a.code == limit || b.code == limit {
            if a.code == 0 || b.code == 0 {
                return self.no_number();
            }
            return Binary { negative, code: limit };
        }
        let (ka, qa): (u32, u64) = self.split(a.code);
        let (kb, qb): (u32, u64) = self.split(b.code);
        let unit: u32 = self.unit_power();
        let e: i32 = ka as i32 + kb as i32 - unit as i32;
        proof {
            if self.p() < 53 {
                lemma_pow2_strictly_increases(self.p(), 53);
            }
            lemma_pow2_adds(53, 53);
            lemma_pow2_adds(106, 20);
            lemma2_to64();
            lemma2_to64_rest();
            assert(qa * qb < pow2(53) * pow2(53)) by (nonlinear_arith)
                requires
                    qa < pow2(53),
                    qb < pow2(53),
            ;
        }
        let whole: u128 = qa as u128 * qb as u128;
        proof {
            let num = whole as nat;
            let n = rounding::scaled_num(num, e as int);
            let d = rounding::scaled_den(1, e as int);
            let target = a.size(self) * b.size(self);
            let bottom = pow2(self.unit());
            lemma_pow2_pos(self.unit());
            lemma_pow2_adds(ka as nat, kb as nat);
            assert(target == num * pow2((ka + kb) as nat)) by (nonlinear_arith)
                requires
                    target == (qa * pow2(ka as nat)) * (qb * pow2(kb as nat)),
                    num == qa * qb,
                    pow2((ka + kb) as nat) == pow2(ka as nat) * pow2(kb as nat),
            ;
            if e >= 0 {
                rounding::lemma_cross(num, 1, e as nat, self.unit(), (ka + kb) as nat, 0);
            } else {
                lemma_pow2_pos((-e) as nat);
                rounding::lemma_cross(num, 1, 0, self.unit(), (ka + kb) as nat, (-e) as nat);
            }
            assert(n * bottom == target * d);
            self.lemma_same(negative, n, d, target, bottom, whole as nat, e as int);
        }
        self.round_whole(negative, whole, e)
    }

    /// Equal fractions have the same rounded value.
    pub proof fn lemma_same(self, negative: bool, n1: nat, d1: nat, n2: nat, d2: nat, whole: nat, e: int)
        requires
            d1 > 0,
            d2 > 0,
            n1 * d2 == n2 * d1,
            n1 == rounding::scaled_num(whole, e),
            d1 == rounding::scaled_den(1, e),
        ensures
            self.rounded(negative, n1, d1) == self.rounded(negative, n2, d2),
    {
        rounding::lemma_rounds(n1, d1, self.p());
        let code = rounding::nearest(n1, d1, self.p());
        rounding::lemma_equal_fractions(n1, d1, n2, d2, self.p(), code);
        rounding::lemma_nearest(n2, d2, self.p(), code);
    }

    /// Divides one value by another.
    pub fn over(self, a: Binary, b: Binary) -> (value: Binary)
        ensures
            value == self.quotient(a, b),
    {
        let limit: u64 = self.infinity_code();
        let negative: bool = a.negative != b.negative;
        if a.code > limit || b.code > limit {
            return self.no_number();
        }
        if a.code == limit {
            if b.code == limit {
                return self.no_number();
            }
            return Binary { negative, code: limit };
        }
        if b.code == limit {
            return Binary { negative, code: 0 };
        }
        if b.code == 0 {
            if a.code == 0 {
                return self.no_number();
            }
            return Binary { negative, code: limit };
        }
        self.divide_finite(negative, a, b)
    }

    fn divide_finite(self, negative: bool, a: Binary, b: Binary) -> (value: Binary)
        requires
            a.is_finite(self),
            b.is_finite(self),
            b.code > 0,
        ensures
            value == self.rounded(negative, a.size(self) * pow2(self.unit()), b.size(self)),
    {
        let (ka, qa): (u32, u64) = self.split(a.code);
        let (kb, qb): (u32, u64) = self.split(b.code);
        let unit: u32 = self.unit_power();
        let p: u32 = self.precision();
        let ghost top = a.size(self) * pow2(self.unit());
        let ghost bottom = b.size(self);
        proof {
            self.lemma_itself(b);
            lemma_pow2_adds(ka as nat, self.unit());
            assert(top == qa * pow2((ka + unit) as nat)) by (nonlinear_arith)
                requires
                    top == (qa * pow2(ka as nat)) * pow2(self.unit()),
                    pow2((ka + unit) as nat) == pow2(ka as nat) * pow2(self.unit()),
            ;
        }
        if a.code == 0 {
            proof {
                rounding::lemma_zero_fraction(bottom, self.p());
                assert(top == 0) by (nonlinear_arith)
                    requires
                        top == qa * pow2((ka + unit) as nat),
                        qa == 0,
                ;
            }
            return self.clip(negative, 0, Ghost(top), Ghost(bottom));
        }
        // Scale the dividend so that the quotient has bits to spare.
        let length: u32 = rounding::bit_length(qa as u128);
        proof {
            rounding::lemma_length_bound(qa as nat, length as nat, self.p());
        }
        let shift: u32 = (p - length) + p + 2;
        proof {
            lemma_pow2_adds(length as nat, shift as nat);
            lemma_pow2_adds((length - 1) as nat, shift as nat);
            lemma_pow2_pos(shift as nat);
            assert(qa * pow2(shift as nat) < pow2(length as nat) * pow2(shift as nat))
                by (nonlinear_arith)
                requires
                    qa < pow2(length as nat),
                    pow2(shift as nat) > 0,
            ;
            assert(qa * pow2(shift as nat) >= pow2((length - 1) as nat) * pow2(shift as nat))
                by (nonlinear_arith)
                requires
                    qa >= pow2((length - 1) as nat),
            ;
            assert(length + shift == 2 * p + 2);
            lemma_pow2_strictly_increases((2 * p + 2) as nat, 126);
            rounding::lemma_power_fits(126);
        }
        let num: u128 = qa as u128 * rounding::power_of_two(shift);
        let den: u128 = qb as u128;
        let whole: u128 = num / den;
        let rest: u128 = num % den;
        let e: i32 = ka as i32 + unit as i32 - kb as i32 - shift as i32;
        proof {
            lemma_fundamental_div_mod(num as int, den as int);
            lemma_mod_bound(num as int, den as int);
            assert(den * whole == whole * den) by (nonlinear_arith);
            assert((whole + 1) * den == whole * den + den) by (nonlinear_arith);
            assert(whole <= num) by (nonlinear_arith)
                requires
                    whole * den <= num,
                    den >= 1,
            ;
            lemma_pow2_adds((p + 1) as nat, self.p());
            lemma_pow2_unfold((p + 1) as nat);
            lemma_pow2_pos(self.p());
            assert(whole + 1 > pow2((p + 1) as nat)) by (nonlinear_arith)
                requires
                    num < (whole + 1) * den,
                    num >= pow2((p + 1) as nat) * pow2(self.p()),
                    den < pow2(self.p()),
                    den > 0,
            ;
        }
        let code: u128 = rounding::round_binary(
            whole,
            rest != 0,
            e,
            p,
            Ghost(num as nat),
            Ghost(den as nat),
        );
        proof {
            let n = rounding::scaled_num(num as nat, e as int);
            let d = rounding::scaled_den(den as nat, e as int);
            if e >= 0 {
                lemma_pow2_adds(shift as nat, e as nat);
                assert(n == qa * pow2((shift + e) as nat)) by (nonlinear_arith)
                    requires
                        n == (qa * pow2(shift as nat)) * pow2(e as nat),
                        pow2((shift + e) as nat) == pow2(shift as nat) * pow2(e as nat),
                ;
                rounding::lemma_cross(
                    qa as nat,
                    qb as nat,
                    (shift + e) as nat,
                    kb as nat,
                    (ka + unit) as nat,
                    0,
                );
            } else {
                lemma_pow2_pos((-e) as nat);
                assert(d > 0) by (nonlinear_arith)
                    requires
                        d == den * pow2((-e) as nat),
                        den > 0,
                        pow2((-e) as nat) > 0,
                ;
                rounding::lemma_cross(
                    qa as nat,
                    qb as nat,
                    shift as nat,
                    kb as nat,
                    (ka + unit) as nat,
                    (-e) as nat,
                );
            }
            lemma2_to64();
            assert(qb * pow2(0) == qb) by (nonlinear_arith)
                requires
                    pow2(0) == 1,
            ;
            assert(n * bottom == top * d);
            rounding::lemma_equal_fractions(n, d, top, bottom, self.p(), code as nat);
        }
        self.clip(negative, code, Ghost(top), Ghost(bottom))
    }
}

} // verus!
