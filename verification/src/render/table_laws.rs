//! What holds of the table that a tone curve is applied by.

use vstd::arithmetic::power2::*;
use vstd::prelude::*;

use crate::document::curve::ToneCurve;
use crate::document::curve_laws;
use crate::document::range_laws;
use crate::document::turn_laws;
use crate::number::bounds;
use crate::number::constants;
use crate::number::integer_laws;
use crate::number::laws;
use crate::number::rounding;
use crate::number::scalar::Scalar;
use crate::render::tones;

verus! {

/// Whether an entry of a table of 65536 entries keeps to two neighbouring
/// control points: at the input of one of them it is its output, and between
/// them it lies between their outputs, but for one part in 16384.
pub open spec fn keeps_to(
    entry: Scalar,
    index: int,
    first_input: Scalar,
    first_output: Scalar,
    second_input: Scalar,
    second_output: Scalar,
) -> bool {
    let place = index * turn_laws::whole();
    let first = laws::exact(first_output);
    let second = laws::exact(second_output);
    let value = laws::exact(entry);
    let one = turn_laws::whole();
    &&& place == 65535 * laws::exact(first_input) ==> entry.same(first_output)
    &&& place == 65535 * laws::exact(second_input) ==> entry.same(second_output)
    &&& 65535 * laws::exact(first_input) <= place <= 65535 * laws::exact(second_input) ==> {
        &&& entry.finite()
        &&& first <= second ==> 16384 * (first - value) <= one && 16384 * (value - second) <= one
        &&& second <= first ==> 16384 * (second - value) <= one && 16384 * (value - first) <= one
    }
}

/// Whether an entry of a table keeps to the control points of a curve, the
/// ends at zero and one among them.
pub open spec fn keeps_to_the_points(curve: ToneCurve, index: int, entry: Scalar) -> bool {
    let zero = Scalar { bits: 0 };
    let one = Scalar { bits: 0x3f80_0000 };
    &&& keeps_to(entry, index, zero, zero, curve.shadow_input, curve.shadows)
    &&& keeps_to(
        entry,
        index,
        curve.shadow_input,
        curve.shadows,
        curve.midtone_input,
        curve.midtones,
    )
    &&& keeps_to(
        entry,
        index,
        curve.midtone_input,
        curve.midtones,
        curve.highlight_input,
        curve.highlights,
    )
    &&& keeps_to(entry, index, curve.highlight_input, curve.highlights, one, one)
}

/// The input that an entry stands for.
spec fn input(index: int) -> Scalar {
    Scalar::integer(index).quotient(Scalar { bits: tones::CURVE_TABLE_LAST })
}

/// An input compares with the numbers from zero to one as the exact one does.
proof fn lemma_input(index: int, c: Scalar)
    requires
        0 <= index <= 65535,
        c.within(Scalar { bits: constants::ZERO }, Scalar { bits: constants::ONE }),
    ensures
        65535 * laws::exact(c) <= index * turn_laws::whole() ==> c.at_most(input(index)),
        index * turn_laws::whole() <= 65535 * laws::exact(c) ==> input(index).at_most(c),
        !input(index).value().negative,
{
    let last = Scalar { bits: tones::CURVE_TABLE_LAST };
    let zero = Scalar { bits: constants::ZERO };
    let a = Scalar::integer(index);
    curve_laws::lemma_constants();
    lemma2_to64();
    rounding::lemma_encode(141, 0xff_ff00, 24);
    lemma_pow2_adds(8, 141);
    let w = pow2(149) as int;
    assert(laws::exact(last) == 65535 * w);
    integer_laws::a_small_integer_is_exact(index);
    laws::order_is_exact(zero, c);
    let x = laws::exact(c);
    // A negative zero compares as zero does.
    let d = if c.value().negative {
        zero
    } else {
        c
    };
    if c.value().negative {
        rounding::lemma_zero_magnitude(24);
        if c.value().code > 0 {
            rounding::lemma_increasing(0, c.value().code as nat, 24);
        }
    }
    assert(laws::exact(d) == x && d.value().rank() == c.value().rank());
    integer_laws::a_quotient_compares(a, last, d);
    let left = x * (65535 * w);
    let right = (index * w) * w;
    if 65535 * x <= index * w {
        assert(left <= right) by (nonlinear_arith)
            requires
                left == x * (65535 * w),
                right == (index * w) * w,
                65535 * x <= index * w,
                w > 0,
        ;
    }
    if index * w <= 65535 * x {
        assert(right <= left) by (nonlinear_arith)
            requires
                left == x * (65535 * w),
                right == (index * w) * w,
                index * w <= 65535 * x,
                w > 0,
        ;
    }
}

/// Inputs lie from zero to one and in the order of their indices.
proof fn lemma_inputs(first: int, second: int)
    requires
        0 <= first <= second <= 65535,
    ensures
        input(first).within(Scalar { bits: constants::ZERO }, Scalar { bits: constants::ONE }),
        input(second).within(Scalar { bits: constants::ZERO }, Scalar { bits: constants::ONE }),
        input(first).at_most(input(second)),
{
    let zero = Scalar { bits: constants::ZERO };
    let one = Scalar { bits: constants::ONE };
    curve_laws::lemma_constants();
    laws::order_is_exact(zero, one);
    let w = turn_laws::whole();
    assert(0 <= first * w <= second * w && second * w <= 65535 * w) by (nonlinear_arith)
        requires
            0 <= first <= second <= 65535,
            w > 0,
    ;
    lemma_input(first, zero);
    lemma_input(first, one);
    lemma_input(second, zero);
    lemma_input(second, one);
    integer_laws::a_small_integer_is_exact(first);
    integer_laws::a_small_integer_is_exact(second);
    let last = Scalar { bits: tones::CURVE_TABLE_LAST };
    assert(first * pow2(149) <= second * pow2(149)) by (nonlinear_arith)
        requires
            first <= second,
    ;
    bounds::a_quotient_is_monotone(Scalar::integer(first), Scalar::integer(second), last);
    laws::order_is_exact(input(first), input(second));
}

/// Numbers of the same rank that are not negative are the same.
proof fn lemma_one_of_a_rank(a: Scalar, b: Scalar)
    requires
        a.same(b),
        !a.value().negative,
        !b.value().negative || b.value().code == 0,
    ensures
        !b.value().negative ==> a == b,
        b.value().negative ==> a == (Scalar { bits: 0 }),
{
}

/// An entry between two neighbouring points.
proof fn lemma_between(curve: ToneCurve, index: int, s: int)
    requires
        curve.valid(),
        0 <= index <= 65535,
        0 <= s < 4,
    ensures
        keeps_to(
            tones::table_entry(curve, index),
            index,
            curve.inputs()[s],
            curve.values()[s],
            curve.inputs()[s + 1],
            curve.values()[s + 1],
        ),
{
    let x = input(index);
    let first = curve.inputs()[s];
    let second = curve.inputs()[s + 1];
    curve_laws::lemma_constants();
    curve_laws::lemma_points(curve);
    lemma_inputs(index, index);
    assert(first.within(Scalar { bits: constants::ZERO }, Scalar { bits: constants::ONE }));
    assert(second.within(Scalar { bits: constants::ZERO }, Scalar { bits: constants::ONE }));
    lemma_input(index, first);
    lemma_input(index, second);
    curve_laws::the_curve_passes_through_its_points(curve);
    range_laws::the_curve_stays_between_its_points(curve, x);
    laws::order_is_exact(curve.shadow_input, curve.midtone_input);
    laws::order_is_exact(curve.midtone_input, curve.highlight_input);
    laws::order_is_exact(Scalar { bits: constants::ZERO }, curve.shadow_input);
    laws::order_is_exact(curve.highlight_input, Scalar { bits: constants::ONE });
    if x.same(first) {
        lemma_one_of_a_rank(x, first);
        laws::order_is_exact(curve.at(x), curve.values()[s]);
    }
    if x.same(second) {
        lemma_one_of_a_rank(x, second);
        laws::order_is_exact(curve.at(x), curve.values()[s + 1]);
    }
}

/// Every entry of the table of a valid curve keeps to its control points.
pub proof fn a_table_keeps_to_the_points(curve: ToneCurve, index: int)
    requires
        curve.valid(),
        0 <= index <= 65535,
    ensures
        keeps_to_the_points(curve, index, tones::table_entry(curve, index)),
{
    lemma_between(curve, index, 0);
    lemma_between(curve, index, 1);
    lemma_between(curve, index, 2);
    lemma_between(curve, index, 3);
}

/// The table of a curve whose points rise rises, but for one part in 8192.
pub proof fn a_table_of_rising_points_rises(curve: ToneCurve, first: int, second: int)
    requires
        curve.valid(),
        curve.shadows.at_most(curve.midtones),
        curve.midtones.at_most(curve.highlights),
        0 <= first <= second <= 65535,
    ensures
        8192 * (laws::exact(tones::table_entry(curve, first)) - laws::exact(
            tones::table_entry(curve, second),
        )) <= turn_laws::whole(),
{
    lemma_inputs(first, second);
    range_laws::a_curve_of_rising_points_rises(curve, input(first), input(second));
}

} // verus!
