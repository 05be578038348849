//! The tone curve: a shape-preserving curve through five control points.

use vstd::prelude::*;

use crate::document::values;
use crate::document::values::is_negligible;
use crate::number::constants;
use crate::number::scalar::Scalar;

verus! {

/// The three movable control points of the curve; its ends are fixed.
#[derive(Clone, Copy, Debug, PartialEq)]
pub struct ToneCurve {
    pub shadow_input: Scalar,
    pub shadows: Scalar,
    pub midtone_input: Scalar,
    pub midtones: Scalar,
    pub highlight_input: Scalar,
    pub highlights: Scalar,
}

/// The distance between neighbouring inputs.
pub open spec fn interval(inputs: Seq<Scalar>, segment: int) -> Scalar {
    inputs[segment + 1].difference(inputs[segment])
}

/// The rise between neighbouring points over their distance.
pub open spec fn slope(inputs: Seq<Scalar>, values: Seq<Scalar>, segment: int) -> Scalar {
    values[segment + 1].difference(values[segment]).quotient(interval(inputs, segment))
}

/// The tangent at a point between two segments: flat at a turning point, else
/// the weighted harmonic mean of the slopes.
pub open spec fn joint_tangent(
    before: Scalar,
    after: Scalar,
    before_interval: Scalar,
    after_interval: Scalar,
) -> Scalar {
    let zero = Scalar { bits: constants::ZERO };
    let two = Scalar { bits: constants::TWO };
    if before.product(after).at_most(zero) {
        zero
    } else {
        let before_weight = two.product(after_interval).sum(before_interval);
        let after_weight = after_interval.sum(two.product(before_interval));
        before_weight.sum(after_weight).quotient(
            before_weight.quotient(before).sum(after_weight.quotient(after)),
        )
    }
}

/// The tangents at the five points before they are limited.
pub open spec fn plain_tangent(inputs: Seq<Scalar>, values: Seq<Scalar>, point: int) -> Scalar {
    if point == 0 {
        slope(inputs, values, 0)
    } else if point == 4 {
        slope(inputs, values, 3)
    } else {
        joint_tangent(
            slope(inputs, values, point - 1),
            slope(inputs, values, point),
            interval(inputs, point - 1),
            interval(inputs, point),
        )
    }
}

/// The two tangents of a segment, limited so that the curve does not leave
/// the range of its ends: flat on a flat segment, else within a circle of
/// three times the slope.
pub open spec fn limited(first: Scalar, second: Scalar, slope: Scalar) -> (Scalar, Scalar) {
    let zero = Scalar { bits: constants::ZERO };
    let three = Scalar { bits: constants::THREE };
    let nine = Scalar { bits: constants::NINE };
    if values::negligible(slope) {
        (zero, zero)
    } else {
        let a = first.quotient(slope);
        let b = second.quotient(slope);
        let magnitude = a.product(a).sum(b.product(b));
        if nine.below(magnitude) {
            let scale = three.quotient(magnitude.root());
            (scale.product(a).product(slope), scale.product(b).product(slope))
        } else {
            (first, second)
        }
    }
}

/// The tangents after the first `count` segments have been limited in turn.
pub open spec fn tangents_after(inputs: Seq<Scalar>, values: Seq<Scalar>, count: nat) -> Seq<Scalar>
    decreases count,
{
    if count == 0 {
        Seq::new(5, |point: int| plain_tangent(inputs, values, point))
    } else {
        let segment = count - 1;
        let before = tangents_after(inputs, values, segment as nat);
        let pair = limited(before[segment], before[segment + 1], slope(inputs, values, segment));
        before.update(segment, pair.0).update(segment + 1, pair.1)
    }
}

/// The cubic through the ends of a segment with the given tangents.
pub open spec fn hermite(
    x: Scalar,
    start: Scalar,
    interval: Scalar,
    first: Scalar,
    second: Scalar,
    first_tangent: Scalar,
    second_tangent: Scalar,
) -> Scalar {
    let one = Scalar { bits: constants::ONE };
    let two = Scalar { bits: constants::TWO };
    let three = Scalar { bits: constants::THREE };
    let t = x.difference(start).quotient(interval);
    let t2 = t.product(t);
    let t3 = t2.product(t);
    let h00 = two.product(t3).difference(three.product(t2)).sum(one);
    let h10 = t3.difference(two.product(t2)).sum(t);
    let h01 = two.negated().product(t3).sum(three.product(t2));
    let h11 = t3.difference(t2);
    h00.product(first).sum(h10.product(interval).product(first_tangent)).sum(
        h01.product(second),
    ).sum(h11.product(interval).product(second_tangent))
}

impl ToneCurve {
    /// The straight curve.
    pub open spec fn straight() -> ToneCurve {
        ToneCurve {
            shadow_input: Scalar { bits: constants::QUARTER },
            shadows: Scalar { bits: constants::QUARTER },
            midtone_input: Scalar { bits: constants::HALF },
            midtones: Scalar { bits: constants::HALF },
            highlight_input: Scalar { bits: constants::THREE_QUARTERS },
            highlights: Scalar { bits: constants::THREE_QUARTERS },
        }
    }

    pub open spec fn has_no_effect(self) -> bool {
        &&& values::negligible(self.shadow_input.difference(self.shadows))
        &&& values::negligible(self.midtone_input.difference(self.midtones))
        &&& values::negligible(self.highlight_input.difference(self.highlights))
    }

    pub open spec fn same(self, other: ToneCurve) -> bool {
        &&& self.shadow_input.same(other.shadow_input)
        &&& self.shadows.same(other.shadows)
        &&& self.midtone_input.same(other.midtone_input)
        &&& self.midtones.same(other.midtones)
        &&& self.highlight_input.same(other.highlight_input)
        &&& self.highlights.same(other.highlights)
    }

    /// Whether the points are numbers from zero to one, with inputs in order
    /// and apart from each other and from the ends.
    pub open spec fn valid(self) -> bool {
        let zero = Scalar { bits: constants::ZERO };
        let one = Scalar { bits: constants::ONE };
        let gap = Scalar { bits: constants::THOUSANDTH };
        &&& self.shadow_input.finite() && self.shadows.finite()
        &&& self.midtone_input.finite() && self.midtones.finite()
        &&& self.highlight_input.finite() && self.highlights.finite()
        &&& gap.at_most(self.shadow_input)
        &&& gap.at_most(self.midtone_input.difference(self.shadow_input))
        &&& gap.at_most(self.highlight_input.difference(self.midtone_input))
        &&& gap.at_most(one.difference(self.highlight_input))
        &&& self.shadows.within(zero, one)
        &&& self.midtones.within(zero, one)
        &&& self.highlights.within(zero, one)
    }

    /// The inputs of the five control points.
    pub open spec fn inputs(self) -> Seq<Scalar> {
        seq![
            Scalar { bits: constants::ZERO },
            self.shadow_input,
            self.midtone_input,
            self.highlight_input,
            Scalar { bits: constants::ONE },
        ]
    }

    /// The values of the five control points.
    pub open spec fn values(self) -> Seq<Scalar> {
        seq![
            Scalar { bits: constants::ZERO },
            self.shadows,
            self.midtones,
            self.highlights,
            Scalar { bits: constants::ONE },
        ]
    }

    /// The segment that an input falls into.
    pub open spec fn segment(self, x: Scalar) -> int {
        if x.at_most(self.shadow_input) {
            0
        } else if x.at_most(self.midtone_input) {
            1
        } else if x.at_most(self.highlight_input) {
            2
        } else {
            3
        }
    }

    /// The value of the curve. What lies outside the curve's range passes
    /// unchanged.
    pub open spec fn at(self, x: Scalar) -> Scalar {
        if !x.within(Scalar { bits: constants::ZERO }, Scalar { bits: constants::ONE }) {
            x
        } else {
            let s = self.segment(x);
            let tangents = tangents_after(self.inputs(), self.values(), 4);
            hermite(
                x,
                self.inputs()[s],
                interval(self.inputs(), s),
                self.values()[s],
                self.values()[s + 1],
                tangents[s],
                tangents[s + 1],
            )
        }
    }

    pub fn identity() -> (curve: ToneCurve)
        ensures
            curve == ToneCurve::straight(),
    {
        ToneCurve {
            shadow_input: Scalar { bits: constants::QUARTER },
            shadows: Scalar { bits: constants::QUARTER },
            midtone_input: Scalar { bits: constants::HALF },
            midtones: Scalar { bits: constants::HALF },
            highlight_input: Scalar { bits: constants::THREE_QUARTERS },
            highlights: Scalar { bits: constants::THREE_QUARTERS },
        }
    }

    #[must_use]
    pub fn is_identity(self) -> (result: bool)
        ensures
            result == self.has_no_effect(),
    {
        is_negligible(self.shadow_input.minus(self.shadows)) && is_negligible(
            self.midtone_input.minus(self.midtones),
        ) && is_negligible(self.highlight_input.minus(self.highlights))
    }

    pub fn equals(self, other: ToneCurve) -> (result: bool)
        ensures
            result == self.same(other),
    {
        self.shadow_input.equals(other.shadow_input) && self.shadows.equals(other.shadows)
            && self.midtone_input.equals(other.midtone_input) && self.midtones.equals(
            other.midtones,
        ) && self.highlight_input.equals(other.highlight_input) && self.highlights.equals(
            other.highlights,
        )
    }

    /// Samples the curve. Values outside the interval from zero to one are
    /// kept, so that extended-range data is not destroyed.
    #[must_use]
    pub fn sample(self, x: Scalar) -> (value: Scalar)
        ensures
            value == self.at(x),
    {
        if !x.contained(Scalar { bits: constants::ZERO }, Scalar { bits: constants::ONE }) {
            return x;
        }
        let inputs: [Scalar; 5] = [
            Scalar { bits: constants::ZERO },
            self.shadow_input,
            self.midtone_input,
            self.highlight_input,
            Scalar { bits: constants::ONE },
        ];
        let values: [Scalar; 5] = [
            Scalar { bits: constants::ZERO },
            self.shadows,
            self.midtones,
            self.highlights,
            Scalar { bits: constants::ONE },
        ];
        assert(inputs@ =~= self.inputs());
        assert(values@ =~= self.values());
        let tangents: Vec<Scalar> = shape_preserving_tangents(&inputs, &values);
        let segment: usize = if x.less_or_equal(self.shadow_input) {
            0
        } else if x.less_or_equal(self.midtone_input) {
            1
        } else if x.less_or_equal(self.highlight_input) {
            2
        } else {
            3
        };
        let one: Scalar = Scalar { bits: constants::ONE };
        let two: Scalar = Scalar { bits: constants::TWO };
        let three: Scalar = Scalar { bits: constants::THREE };
        let interval: Scalar = inputs[segment + 1].minus(inputs[segment]);
        let t: Scalar = x.minus(inputs[segment]).over(interval);
        let t2: Scalar = t.times(t);
        let t3: Scalar = t2.times(t);
        let h00: Scalar = two.times(t3).minus(three.times(t2)).plus(one);
        let h10: Scalar = t3.minus(two.times(t2)).plus(t);
        let h01: Scalar = two.negate().times(t3).plus(three.times(t2));
        let h11: Scalar = t3.minus(t2);
        h00.times(values[segment]).plus(h10.times(interval).times(tangents[segment])).plus(
            h01.times(values[segment + 1]),
        ).plus(h11.times(interval).times(tangents[segment + 1]))
    }
}

impl Default for ToneCurve {
    fn default() -> (curve: ToneCurve)
        ensures
            curve == ToneCurve::straight(),
    {
        ToneCurve::identity()
    }
}

/// The tangents at the five control points.
pub fn shape_preserving_tangents(inputs: &[Scalar; 5], values: &[Scalar; 5]) -> (tangents: Vec<
    Scalar,
>)
    ensures
        tangents@ == tangents_after(inputs@, values@, 4),
        tangents.len() == 5,
{
    let zero: Scalar = Scalar { bits: constants::ZERO };
    let two: Scalar = Scalar { bits: constants::TWO };
    let three: Scalar = Scalar { bits: constants::THREE };
    let nine: Scalar = Scalar { bits: constants::NINE };
    let mut intervals: Vec<Scalar> = Vec::new();
    let mut slopes: Vec<Scalar> = Vec::new();
    let mut segment: usize = 0;
    while segment < 4
        invariant
            segment <= 4,
            intervals.len() == segment,
            slopes.len() == segment,
            forall|s: int| 0 <= s < segment ==> #[trigger] intervals[s] == interval(inputs@, s),
            forall|s: int| 0 <= s < segment ==> #[trigger] slopes[s] == slope(inputs@, values@, s),
        decreases 4 - segment,
    {
        let interval: Scalar = inputs[segment + 1].minus(inputs[segment]);
        slopes.push(values[segment + 1].minus(values[segment]).over(interval));
        intervals.push(interval);
        segment = segment + 1;
    }
    let mut tangents: Vec<Scalar> = Vec::new();
    tangents.push(slopes[0]);
    let mut point: usize = 1;
    while point < 4
        invariant
            1 <= point <= 4,
            tangents.len() == point,
            intervals.len() == 4,
            slopes.len() == 4,
            zero == (Scalar { bits: constants::ZERO }),
            two == (Scalar { bits: constants::TWO }),
            forall|s: int| 0 <= s < 4 ==> #[trigger] intervals[s] == interval(inputs@, s),
            forall|s: int| 0 <= s < 4 ==> #[trigger] slopes[s] == slope(inputs@, values@, s),
            forall|i: int|
                0 <= i < point ==> #[trigger] tangents[i] == plain_tangent(inputs@, values@, i),
        decreases 4 - point,
    {
        let before: Scalar = slopes[point - 1];
        let after: Scalar = slopes[point];
        if before.times(after).less_or_equal(zero) {
            tangents.push(zero);
        } else {
            let before_interval: Scalar = intervals[point - 1];
            let after_interval: Scalar = intervals[point];
            let before_weight: Scalar = two.times(after_interval).plus(before_interval);
            let after_weight: Scalar = after_interval.plus(two.times(before_interval));
            tangents.push(
                before_weight.plus(after_weight).over(
                    before_weight.over(before).plus(after_weight.over(after)),
                ),
            );
        }
        point = point + 1;
    }
    tangents.push(slopes[3]);
    assert(tangents@ =~= tangents_after(inputs@, values@, 0));
    let mut segment: usize = 0;
    while segment < 4
        invariant
            segment <= 4,
            tangents.len() == 5,
            slopes.len() == 4,
            zero == (Scalar { bits: constants::ZERO }),
            three == (Scalar { bits: constants::THREE }),
            nine == (Scalar { bits: constants::NINE }),
            forall|s: int| 0 <= s < 4 ==> #[trigger] slopes[s] == slope(inputs@, values@, s),
            tangents@ == tangents_after(inputs@, values@, segment as nat),
        decreases 4 - segment,
    {
        let steepness: Scalar = slopes[segment];
        let ghost before = tangents@;
        if is_negligible(steepness) {
            tangents.set(segment, zero);
            tangents.set(segment + 1, zero);
        } else {
            let a: Scalar = tangents[segment].over(steepness);
            let b: Scalar = tangents[segment + 1].over(steepness);
            let magnitude: Scalar = a.times(a).plus(b.times(b));
            if nine.less(magnitude) {
                let scale: Scalar = three.over(magnitude.sqrt());
                tangents.set(segment, scale.times(a).times(steepness));
                tangents.set(segment + 1, scale.times(b).times(steepness));
            } else {
                assert(tangents@ =~= before.update(
                    segment as int,
                    before[segment as int],
                ).update(segment + 1, before[segment + 1]));
            }
        }
        segment = segment + 1;
        assert(tangents@ =~= tangents_after(inputs@, values@, segment as nat));
    }
    tangents
}

} // verus!
