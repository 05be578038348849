//! Bringing a crop inside the image, and telling numbers apart.

use vstd::prelude::*;

use crate::document::crop_laws;
use crate::document::curve_laws;
use crate::document::turn_laws;
use crate::document::values;
use crate::document::values::CropRect;
use crate::number::bounds;
use crate::number::constants;
use crate::number::laws;
use crate::number::rounding;
use crate::number::scalar::Scalar;

verus! {

/// A place held between two others.
pub open spec fn held(place: int, low: int, high: int) -> int {
    if place < low {
        low
    } else if place > high {
        high
    } else {
        place
    }
}

/// Whether a position and an extent are others brought inside the whole: the
/// extent is held between a hundredth and one, and then the position where the
/// extent fits, but for two steps of the numbers at one.
pub open spec fn is_brought_inside(
    position: Scalar,
    extent: Scalar,
    old_position: Scalar,
    old_extent: Scalar,
) -> bool {
    let one = turn_laws::whole();
    let least = laws::exact(Scalar { bits: 0x3c23_d70a });
    let (x, e) = (laws::exact(position), laws::exact(extent));
    let (old_x, old_e) = (laws::exact(old_position), laws::exact(old_extent));
    &&& e == held(old_e, least, one)
    &&& 0 <= x
    &&& bounds::absolute(x - held(old_x, 0, one - e)) <= 2 * turn_laws::step()
    &&& least <= old_e && 0 <= old_x && old_x + old_e <= one ==> position == old_position
        && extent == old_extent
}

/// One direction of a crop.
proof fn lemma_brought_inside(position: Scalar, extent: Scalar)
    requires
        position.finite(),
        extent.finite(),
    ensures
        ({
            let one = Scalar { bits: constants::ONE };
            let zero = Scalar { bits: constants::ZERO };
            let kept = extent.clamped(Scalar { bits: constants::HUNDREDTH }, one);
            is_brought_inside(
                position.clamped(zero, one.difference(kept)),
                kept,
                position,
                extent,
            )
        }),
{
    let one = Scalar { bits: constants::ONE };
    let zero = Scalar { bits: constants::ZERO };
    let least = Scalar { bits: constants::HUNDREDTH };
    let kept = extent.clamped(least, one);
    turn_laws::lemma_sizes();
    turn_laws::lemma_clamped(extent, least, one);
    laws::order_is_exact(zero, least);
    turn_laws::lemma_off(one, kept);
    crop_laws::lemma_room_is_close(kept);
    let rest = one.difference(kept);
    turn_laws::lemma_clamped(position, zero, rest);
    let (x, e) = (laws::exact(position), laws::exact(kept));
    if 0 <= x && x + e <= turn_laws::whole() {
        laws::negation_is_exact(kept);
        laws::sum_is_nearest(one, kept.negated());
        laws::nearest_is_monotone(x, turn_laws::whole() - e);
        laws::nearest_to_itself(position);
        laws::order_is_exact(position, rest);
    }
}

/// A crop is brought inside the image by holding its extents and then its
/// position, and one that lies inside stays as it is.
pub proof fn a_crop_is_brought_inside(rect: CropRect)
    requires
        rect.x.finite(),
        rect.y.finite(),
        rect.width.finite(),
        rect.height.finite(),
    ensures
        is_brought_inside(rect.inside().x, rect.inside().width, rect.x, rect.width),
        is_brought_inside(rect.inside().y, rect.inside().height, rect.y, rect.height),
{
    lemma_brought_inside(rect.x, rect.width);
    lemma_brought_inside(rect.y, rect.height);
}

/// The size of a number.
proof fn lemma_size(a: Scalar)
    requires
        a.finite(),
    ensures
        a.size().finite(),
        laws::exact(a.size()) == bounds::absolute(laws::exact(a)),
{
    rounding::lemma_zero_magnitude(24);
}

/// A number is negligible where it is less than the distance of the next
/// number from one, and two numbers are distinct where they differ by more,
/// but for what rounding their difference adds.
pub proof fn negligible_numbers_are_small(a: Scalar, b: Scalar)
    requires
        a.finite(),
        b.finite(),
        bounds::absolute(laws::exact(a)) <= 4 * turn_laws::whole(),
        bounds::absolute(laws::exact(b)) <= 4 * turn_laws::whole(),
    ensures
        values::negligible(a) <==> 0x80_0000 * bounds::absolute(laws::exact(a))
            < turn_laws::whole(),
        bounds::absolute(laws::exact(a) - laws::exact(b)) >= 2 * turn_laws::step()
            ==> values::distinct(a, b),
        2 * bounds::absolute(laws::exact(a) - laws::exact(b)) <= turn_laws::step()
            ==> !values::distinct(a, b),
{
    let epsilon = Scalar { bits: constants::EPSILON };
    turn_laws::lemma_sizes();
    curve_laws::lemma_constants();
    lemma_size(a);
    laws::order_is_exact(a.size(), epsilon);
    turn_laws::lemma_off(a, b);
    lemma_size(a.difference(b));
    laws::order_is_exact(epsilon, a.difference(b).size());
}

} // verus!
