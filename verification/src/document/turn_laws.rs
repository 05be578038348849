//! Turning a crop, or a photo with it, to and fro.

use vstd::arithmetic::power2::*;
use vstd::prelude::*;

use crate::document::crop_laws;
use crate::document::curve_laws;
use crate::document::laws as document_laws;
use crate::document::operation::Operation;
use crate::document::project;
use crate::document::project::DocumentView;
use crate::document::values::CropRect;
use crate::number::bounds;
use crate::number::constants;
use crate::number::laws;
use crate::number::rounding;
use crate::number::scalar::Scalar;

verus! {

/// One, in units.
pub open spec fn whole() -> int {
    laws::exact(Scalar { bits: constants::ONE })
}

/// How far an extent reaches out of the whole.
pub open spec fn overhang(position: Scalar, extent: Scalar) -> int {
    let end = laws::exact(position) + laws::exact(extent);
    if end > whole() {
        end - whole()
    } else {
        0
    }
}

/// Whether a position and an extent are as they were, but for what reached out
/// of the whole and one part in some number of the whole.
pub open spec fn is_held(
    position: Scalar,
    extent: Scalar,
    old_position: Scalar,
    old_extent: Scalar,
    parts: int,
) -> bool {
    let out = overhang(old_position, old_extent);
    &&& parts * (bounds::absolute(laws::exact(position) - laws::exact(old_position)) - out)
        <= whole()
    &&& bounds::absolute(laws::exact(extent) - laws::exact(old_extent)) <= out
}

/// Whether a crop is as another was, but for what reached out of the image and
/// one part in some number of its extent.
pub open spec fn is_given_back(rect: CropRect, before: CropRect, parts: int) -> bool {
    &&& is_held(rect.x, rect.width, before.x, before.width, parts)
    &&& is_held(rect.y, rect.height, before.y, before.height, parts)
}

/// The step of the numbers at one.
pub open spec fn step() -> int {
    pow2(126) as int
}

pub proof fn lemma_sizes()
    ensures
        whole() == 0x80_0000 * step(),
        step() >= 0x1_0000_0000_0000_0000,
        bounds::power(2) == 4 * whole(),
        2 * pow2(125) == step(),
        laws::exact(Scalar { bits: constants::ZERO }) == 0,
        whole() <= 128 * laws::exact(Scalar { bits: constants::HUNDREDTH }),
        laws::exact(Scalar { bits: constants::HUNDREDTH }) <= whole(),
        8 * laws::exact(Scalar { bits: constants::TINY }) <= whole(),
        laws::exact(Scalar { bits: 0x3f90_0000 }) == 0x90_0000 * step(),
        laws::exact(Scalar { bits: 0x3fa0_0000 }) == 0xa0_0000 * step(),
{
    let eighth = Scalar { bits: 0x3e00_0000 };
    curve_laws::lemma_constants();
    lemma2_to64();
    lemma2_to64_rest();
    lemma_pow2_adds(126, 23);
    lemma_pow2_adds(64, 62);
    lemma_pow2_adds(149, 2);
    lemma_pow2_unfold(126);
    lemma_pow2_adds(123, 3);
    assert(pow2(126) == 0x1_0000_0000_0000_0000 * 0x4000_0000_0000_0000);
    rounding::lemma_encode(123, 0x80_0000, 24);
    rounding::lemma_encode(126, 0x90_0000, 24);
    rounding::lemma_encode(126, 0xa0_0000, 24);
    laws::order_is_exact(Scalar { bits: constants::HUNDREDTH }, Scalar { bits: constants::ONE });
    rounding::lemma_encode(119, 0x80_0000, 24);
    lemma_pow2_adds(119, 7);
    laws::order_is_exact(Scalar { bits: 0x3c00_0000 }, Scalar { bits: constants::HUNDREDTH });
    laws::order_is_exact(Scalar { bits: constants::TINY }, eighth);
}

/// A difference of numbers of moderate size, and how far it is off.
pub proof fn lemma_off(a: Scalar, c: Scalar)
    requires
        a.finite(),
        c.finite(),
        -4 * whole() <= laws::exact(a) <= 4 * whole(),
        -4 * whole() <= laws::exact(c) <= 4 * whole(),
    ensures
        ({
            let exact = laws::exact(a) - laws::exact(c);
            let found = laws::exact(a.difference(c));
            &&& a.difference(c).finite()
            &&& (found - exact) * 0x80_0000 <= bounds::absolute(exact) + 0x80_0000
            &&& (exact - found) * 0x80_0000 <= bounds::absolute(exact) + 0x80_0000
        }),
{
    lemma_sizes();
    laws::negation_is_exact(c);
    bounds::a_sum_is_close(a, c.negated(), 2);
    bounds::a_sum_is_bounded(a, c.negated(), 2);
}

/// What is held between two bounds.
pub proof fn lemma_clamped(a: Scalar, low: Scalar, high: Scalar)
    requires
        a.finite(),
        low.finite(),
        high.finite(),
        laws::exact(low) <= laws::exact(high),
    ensures
        a.clamped(low, high).finite(),
        laws::exact(a) < laws::exact(low) ==> a.clamped(low, high) == low,
        laws::exact(a) > laws::exact(high) ==> a.clamped(low, high) == high,
        laws::exact(low) <= laws::exact(a) <= laws::exact(high) ==> a.clamped(low, high) == a,
{
    laws::order_is_exact(low, a);
    laws::order_is_exact(a, low);
    laws::order_is_exact(a, high);
    laws::order_is_exact(high, a);
}

/// Whether an extent lies in range, behind a position that may reach out of
/// the whole a little.
pub open spec fn in_range(position: Scalar, extent: Scalar, out: int) -> bool {
    &&& position.finite()
    &&& extent.finite()
    &&& 0 <= laws::exact(position)
    &&& laws::exact(Scalar { bits: constants::HUNDREDTH }) <= laws::exact(extent)
    &&& laws::exact(position) + laws::exact(extent) <= whole() + out
    &&& 0 <= 4 * out <= whole()
}

/// The extent as it is kept.
pub open spec fn kept_extent(extent: Scalar) -> Scalar {
    extent.clamped(Scalar { bits: constants::HUNDREDTH }, Scalar { bits: constants::ONE })
}

/// A position that is kept.
pub open spec fn kept(position: Scalar, extent: Scalar) -> Scalar {
    position.clamped(
        Scalar { bits: constants::ZERO },
        (Scalar { bits: constants::ONE }).difference(kept_extent(extent)),
    )
}

/// A position that is counted from the other side.
pub open spec fn mirrored(position: Scalar, extent: Scalar) -> Scalar {
    kept((Scalar { bits: constants::ONE }).difference(position).difference(extent), extent)
}

proof fn lemma_kept_extent(position: Scalar, extent: Scalar, out: int)
    requires
        in_range(position, extent, out),
    ensures
        ({
            let rest = (Scalar { bits: constants::ONE }).difference(kept_extent(extent));
            let e = laws::exact(kept_extent(extent));
            &&& kept_extent(extent).finite()
            &&& laws::exact(Scalar { bits: constants::HUNDREDTH }) <= e <= whole()
            &&& e <= laws::exact(extent) <= e + out
            &&& laws::exact(extent) <= whole() ==> kept_extent(extent) == extent
            &&& laws::exact(extent) > whole() ==> e == whole() && laws::exact(rest) == 0
            &&& rest.finite()
            &&& 0 <= laws::exact(rest)
            &&& whole() - e - step() - 1 <= laws::exact(rest) <= whole() - e + pow2(125)
        }),
{
    let one = Scalar { bits: constants::ONE };
    lemma_sizes();
    lemma_clamped(extent, Scalar { bits: constants::HUNDREDTH }, one);
    crop_laws::lemma_room_is_close(kept_extent(extent));
    lemma_off(one, kept_extent(extent));
    if laws::exact(extent) > whole() {
        laws::difference_with_itself_is_zero(one);
        curve_laws::lemma_nought(one.difference(one));
    }
}

/// Keeping a position inside moves it by no more than it reached out, and a
/// step or two.
proof fn lemma_kept(position: Scalar, extent: Scalar, out: int)
    requires
        in_range(position, extent, out),
    ensures
        ({
            let found = laws::exact(kept(position, extent));
            &&& in_range(kept(position, extent), kept_extent(extent), pow2(125) as int)
            &&& kept_extent(kept_extent(extent)) == kept_extent(extent)
            &&& bounds::absolute(found - laws::exact(position)) <= out + 2 * step()
        }),
{
    lemma_sizes();
    lemma_kept_extent(position, extent, out);
    let rest = (Scalar { bits: constants::ONE }).difference(kept_extent(extent));
    lemma_clamped(position, Scalar { bits: constants::ZERO }, rest);
    lemma_clamped(
        kept_extent(extent),
        Scalar { bits: constants::HUNDREDTH },
        Scalar { bits: constants::ONE },
    );
}

/// A mirrored position is what the whole leaves behind position and extent.
proof fn lemma_mirrored(position: Scalar, extent: Scalar, out: int)
    requires
        in_range(position, extent, out),
    ensures
        ({
            let found = laws::exact(mirrored(position, extent));
            let expected = whole() - laws::exact(position) - laws::exact(kept_extent(extent));
            &&& in_range(mirrored(position, extent), kept_extent(extent), pow2(125) as int)
            &&& bounds::absolute(found - expected) <= out + 3 * step()
        }),
{
    let one = Scalar { bits: constants::ONE };
    lemma_sizes();
    lemma_kept_extent(position, extent, out);
    lemma_off(one, position);
    let behind = one.difference(position);
    lemma_off(behind, extent);
    let found = behind.difference(extent);
    let rest = one.difference(kept_extent(extent));
    lemma_clamped(found, Scalar { bits: constants::ZERO }, rest);
    let exact = whole() - laws::exact(position) - laws::exact(extent);
    assert(bounds::absolute(laws::exact(found) - exact) <= 3 * step());
}

/// The two directions of a valid crop.
proof fn lemma_valid_direction(position: Scalar, extent: Scalar)
    requires
        position.finite(),
        extent.finite(),
        (Scalar { bits: constants::ZERO }).at_most(position),
        (Scalar { bits: constants::HUNDREDTH }).at_most(extent),
        position.sum(extent).at_most(
            (Scalar { bits: constants::ONE }).sum(Scalar { bits: constants::TINY }),
        ),
    ensures
        in_range(position, extent, overhang(position, extent)),
{
    let one = Scalar { bits: constants::ONE };
    let tiny = Scalar { bits: constants::TINY };
    let little = Scalar { bits: 0x3f90_0000 };
    let more = Scalar { bits: 0x3fa0_0000 };
    let edge = one.sum(tiny);
    lemma_sizes();
    laws::order_is_exact(Scalar { bits: constants::ZERO }, position);
    laws::order_is_exact(Scalar { bits: constants::HUNDREDTH }, extent);
    laws::sum_is_nearest(position, extent);
    laws::sum_is_nearest(one, tiny);
    let total = laws::exact(position) + laws::exact(extent);
    laws::nearest_is_monotone(laws::exact(one) + laws::exact(tiny), laws::exact(little));
    laws::nearest_to_itself(little);
    laws::nearest_to_itself(more);
    if total > laws::exact(more) {
        laws::nearest_is_monotone(laws::exact(more), total);
        assert(more.at_most(little));
        laws::order_is_exact(more, little);
    }
}

/// A quarter turn to the right and one to the left, in either order, give a
/// crop back, but for what reached out of the image and one part in 2^20. Each
/// of them swaps width and height.
pub proof fn turning_back_gives_a_crop_back(rect: CropRect)
    requires
        rect.valid(),
    ensures
        is_given_back(rect.turned_right().turned_left(), rect, 0x10_0000),
        is_given_back(rect.turned_left().turned_right(), rect, 0x10_0000),
        rect.width.at_most(Scalar { bits: constants::ONE }) ==> rect.turned_right().height
            == rect.width && rect.turned_left().height == rect.width,
        rect.height.at_most(Scalar { bits: constants::ONE }) ==> rect.turned_right().width
            == rect.height && rect.turned_left().width == rect.height,
{
    lemma_sizes();
    lemma_valid_direction(rect.x, rect.width);
    lemma_valid_direction(rect.y, rect.height);
    laws::order_is_exact(rect.width, Scalar { bits: constants::ONE });
    laws::order_is_exact(rect.height, Scalar { bits: constants::ONE });
    lemma_to_and_fro(rect.x, rect.width);
    lemma_to_and_fro(rect.y, rect.height);
}

/// One direction of a crop that is turned and turned back.
proof fn lemma_to_and_fro(position: Scalar, extent: Scalar)
    requires
        in_range(position, extent, overhang(position, extent)),
    ensures
        ({
            let e = kept_extent(extent);
            let out = overhang(position, extent);
            &&& kept_extent(e) == e
            &&& is_held(kept(kept(position, extent), e), e, position, extent, 0x10_0000)
            &&& is_held(mirrored(mirrored(position, extent), e), e, position, extent, 0x10_0000)
            &&& laws::exact(extent) <= whole() ==> e == extent
        }),
{
    let out = overhang(position, extent);
    let e = kept_extent(extent);
    let h = pow2(125) as int;
    lemma_sizes();
    lemma_kept_extent(position, extent, out);
    lemma_kept(position, extent, out);
    lemma_kept(kept(position, extent), e, h);
    lemma_mirrored(position, extent, out);
    lemma_mirrored(mirrored(position, extent), e, h);
}

/// One direction of a crop that is turned round.
proof fn lemma_round(position: Scalar, extent: Scalar)
    requires
        in_range(position, extent, overhang(position, extent)),
    ensures
        ({
            let e = kept_extent(extent);
            &&& is_held(
                mirrored(kept(mirrored(kept(position, extent), e), e), e),
                e,
                position,
                extent,
                0x8_0000,
            )
            &&& is_held(
                kept(mirrored(kept(mirrored(position, extent), e), e), e),
                e,
                position,
                extent,
                0x8_0000,
            )
        }),
{
    let out = overhang(position, extent);
    let e = kept_extent(extent);
    let h = pow2(125) as int;
    lemma_sizes();
    lemma_kept_extent(position, extent, out);
    lemma_kept(position, extent, out);
    let k1 = kept(position, extent);
    lemma_mirrored(k1, e, h);
    let k2 = mirrored(k1, e);
    lemma_kept(k2, e, h);
    let k3 = kept(k2, e);
    lemma_mirrored(k3, e, h);
    lemma_mirrored(position, extent, out);
    let m1 = mirrored(position, extent);
    lemma_kept(m1, e, h);
    let m2 = kept(m1, e);
    lemma_mirrored(m2, e, h);
    let m3 = mirrored(m2, e);
    lemma_kept(m3, e, h);
}

/// Four quarter turns give a crop back, but for what reached out of the image
/// and one part in 2^19.
pub proof fn turning_round_gives_a_crop_back(rect: CropRect)
    requires
        rect.valid(),
    ensures
        is_given_back(project::turned(rect, 4), rect, 0x8_0000),
{
    lemma_sizes();
    lemma_valid_direction(rect.x, rect.width);
    lemma_valid_direction(rect.y, rect.height);
    lemma_to_and_fro(rect.x, rect.width);
    lemma_to_and_fro(rect.y, rect.height);
    lemma_round(rect.x, rect.width);
    lemma_round(rect.y, rect.height);
    reveal_with_fuel(project::turned, 5);
    let first = rect.turned_right();
    assert(first.width == kept_extent(rect.height) && first.height == kept_extent(rect.width));
    let second = first.turned_right();
    let third = second.turned_right();
    let fourth = third.turned_right();
    assert(project::turned(rect, 4) == fourth);
}

/// Some quarter turns and as many as make up a whole turn with them leave a
/// photo turned as it was, with its crop as it was but for what reached out of
/// the image and one part in 2^19. All of them succeed.
pub proof fn turning_round_gives_a_document_back(document: DocumentView, delta: int)
    requires
        document_laws::sound(document),
        0 < delta < 4,
    ensures
        ({
            let after = document.rotated(delta).rotated(4 - delta);
            &&& (Operation::Crop { rect: project::turned(document.crop(), delta) }).valid()
            &&& (Operation::Crop {
                rect: project::turned(document.rotated(delta).crop(), 4 - delta),
            }).valid()
            &&& after.turns() == document.turns()
            &&& is_given_back(after.crop(), document.crop(), 0x8_0000)
        }),
{
    let once = document.rotated(delta);
    let rest = 4 - delta;
    document_laws::turning_keeps_a_document_sound(document, delta);
    document_laws::turning_keeps_a_document_sound(once, rest);
    crop_laws::turning_on_keeps_a_crop_valid(document.crop(), delta);
    crop_laws::turning_on_keeps_a_crop_valid(once.crop(), rest);
    lemma_after_turning(document, delta);
    lemma_after_turning(once, rest);
    lemma_turned_on(document.crop(), delta, rest);
    turning_round_gives_a_crop_back(document.crop());
}

/// Four quarter turns, one at a time, leave a photo turned as it was, with its
/// crop as it was but for what reached out of the image and one part in 2^19.
/// All of them succeed.
pub proof fn four_quarter_turns_give_a_document_back(document: DocumentView)
    requires
        document_laws::sound(document),
    ensures
        ({
            let once = document.rotated(1);
            let twice = once.rotated(1);
            let thrice = twice.rotated(1);
            let after = thrice.rotated(1);
            &&& (Operation::Crop { rect: project::turned(document.crop(), 1) }).valid()
            &&& (Operation::Crop { rect: project::turned(once.crop(), 1) }).valid()
            &&& (Operation::Crop { rect: project::turned(twice.crop(), 1) }).valid()
            &&& (Operation::Crop { rect: project::turned(thrice.crop(), 1) }).valid()
            &&& after.turns() == document.turns()
            &&& is_given_back(after.crop(), document.crop(), 0x8_0000)
        }),
{
    let once = document.rotated(1);
    let twice = once.rotated(1);
    let thrice = twice.rotated(1);
    document_laws::turning_keeps_a_document_sound(document, 1);
    document_laws::turning_keeps_a_document_sound(once, 1);
    document_laws::turning_keeps_a_document_sound(twice, 1);
    document_laws::turning_keeps_a_document_sound(thrice, 1);
    crop_laws::turning_on_keeps_a_crop_valid(document.crop(), 1);
    crop_laws::turning_on_keeps_a_crop_valid(once.crop(), 1);
    crop_laws::turning_on_keeps_a_crop_valid(twice.crop(), 1);
    crop_laws::turning_on_keeps_a_crop_valid(thrice.crop(), 1);
    lemma_after_turning(document, 1);
    lemma_after_turning(once, 1);
    lemma_after_turning(twice, 1);
    lemma_after_turning(thrice, 1);
    reveal_with_fuel(project::turned, 5);
    turning_round_gives_a_crop_back(document.crop());
}

proof fn lemma_after_turning(document: DocumentView, delta: int)
    requires
        document.turns() <= 3,
        0 < delta < 4,
    ensures
        document.rotated(delta).turns() == (document.turns() + delta) % 4,
        document.rotated(delta).crop() == project::turned(document.crop(), delta),
{
    let turn = Operation::Rotate { quarter_turns: document.turns_after(delta) };
    let crop = Operation::Crop { rect: project::turned(document.crop(), delta) };
    document_laws::reading_gives_back_what_was_set(document, turn);
    document_laws::reading_gives_back_what_was_set(document.set(turn), crop);
    let done = document.set(turn).set(crop);
    assert(document.rotated(delta).operations == done.operations);
}

proof fn lemma_turned_on(rect: CropRect, first: int, second: int)
    requires
        0 <= first,
        0 <= second,
    ensures
        project::turned(project::turned(rect, first), second) == project::turned(
            rect,
            first + second,
        ),
    decreases second,
{
    if second > 0 {
        lemma_turned_on(rect, first, second - 1);
    }
}

/// Whether a place of the image lies in a crop, give or take some slack. Places
/// are counted from the left and from the top.
pub open spec fn lies_in(across: int, down: int, rect: CropRect, slack: int) -> bool {
    let (left, top) = (laws::exact(rect.x), laws::exact(rect.y));
    &&& left - slack <= across <= left + laws::exact(rect.width) + slack
    &&& top - slack <= down <= top + laws::exact(rect.height) + slack
}

/// How far rounding may move an edge of a crop that is turned: what it reaches
/// out of the image, and one part in 2^20.
pub open spec fn turning_slack(rect: CropRect) -> int {
    2 * (overhang(rect.x, rect.width) + overhang(rect.y, rect.height)) + whole() / 0x10_0000
}

/// Whether the edges of one crop are those of another after a quarter turn to
/// the right: the bottom edge becomes the left one, the left edge the top one,
/// the top edge the right one and the right edge the bottom one.
pub open spec fn is_turned_right(rect: CropRect, turned: CropRect, slack: int) -> bool {
    let (left, top) = (laws::exact(rect.x), laws::exact(rect.y));
    let (right, bottom) = (left + laws::exact(rect.width), top + laws::exact(rect.height));
    let (new_left, new_top) = (laws::exact(turned.x), laws::exact(turned.y));
    let (new_right, new_bottom) = (
        new_left + laws::exact(turned.width),
        new_top + laws::exact(turned.height),
    );
    &&& -slack <= new_left - (whole() - bottom) <= slack
    &&& -slack <= new_top - left <= slack
    &&& -slack <= new_right - (whole() - top) <= slack
    &&& -slack <= new_bottom - right <= slack
}

/// A quarter turn takes the edges of a crop along with the image.
pub proof fn turning_takes_the_edges_along(rect: CropRect)
    requires
        rect.valid(),
    ensures
        is_turned_right(rect, rect.turned_right(), turning_slack(rect)),
        is_turned_right(rect.turned_left(), rect, turning_slack(rect)),
{
    lemma_sizes();
    lemma_valid_direction(rect.x, rect.width);
    lemma_valid_direction(rect.y, rect.height);
    let (out_x, out_y) = (overhang(rect.x, rect.width), overhang(rect.y, rect.height));
    lemma_kept_extent(rect.x, rect.width, out_x);
    lemma_kept_extent(rect.y, rect.height, out_y);
    lemma_kept(rect.x, rect.width, out_x);
    lemma_kept(rect.y, rect.height, out_y);
    lemma_mirrored(rect.x, rect.width, out_x);
    lemma_mirrored(rect.y, rect.height, out_y);
    assert(whole() / 0x10_0000 == 8 * step());
    let (right, left) = (rect.turned_right(), rect.turned_left());
    assert(right.x == mirrored(rect.y, rect.height) && right.y == kept(rect.x, rect.width));
    assert(left.x == kept(rect.y, rect.height) && left.y == mirrored(rect.x, rect.width));
    assert(right.width == kept_extent(rect.height) && right.height == kept_extent(rect.width));
    assert(left.width == kept_extent(rect.height) && left.height == kept_extent(rect.width));
}

/// A quarter turn to the right takes a place to as far from the right edge of
/// the image as it was from the top, and as far from the top as it was from the
/// left. What lies in a crop then lies in the turned crop, and nothing
/// else does, but for rounding.
pub proof fn turning_keeps_what_is_cropped(rect: CropRect, across: int, down: int)
    requires
        rect.valid(),
    ensures
        ({
            let slack = turning_slack(rect);
            let (right, left) = (rect.turned_right(), rect.turned_left());
            &&& lies_in(across, down, rect, 0) ==> lies_in(whole() - down, across, right, slack)
            &&& lies_in(whole() - down, across, right, 0) ==> lies_in(across, down, rect, slack)
            &&& lies_in(across, down, rect, 0) ==> lies_in(down, whole() - across, left, slack)
            &&& lies_in(down, whole() - across, left, 0) ==> lies_in(across, down, rect, slack)
        }),
{
    turning_takes_the_edges_along(rect);
}

/// Turning a photo by a quarter to the right turns it on by one quarter and
/// takes its crop along; turning it by three is turning it by one to the left.
pub proof fn turning_a_photo_takes_its_crop_along(document: DocumentView)
    requires
        document_laws::sound(document),
    ensures
        ({
            let slack = turning_slack(document.crop());
            let (right, left) = (document.rotated(1), document.rotated(3));
            &&& right.turns() == (document.turns() + 1) % 4
            &&& left.turns() == (document.turns() + 3) % 4
            &&& is_turned_right(document.crop(), right.crop(), slack)
            &&& is_turned_right(left.crop(), document.crop(), 8 * slack)
        }),
{
    let rect = document.crop();
    lemma_sound_crop(document);
    lemma_after_turning(document, 1);
    lemma_after_turning(document, 3);
    assert(project::turned(rect, 1) == rect.turned_right()) by {
        reveal_with_fuel(project::turned, 2);
    }
    turning_takes_the_edges_along(rect);
    lemma_three_turns(rect);
}

proof fn lemma_sound_crop(document: DocumentView)
    requires
        document_laws::sound(document),
    ensures
        document.crop().valid(),
        document.turns() <= 3,
{
    document_laws::turning_keeps_a_document_sound(document, 1);
    crop_laws::turning_on_keeps_a_crop_valid(document.crop(), 1);
}

/// Three quarter turns to the right are one to the left.
proof fn lemma_three_turns(rect: CropRect)
    requires
        rect.valid(),
    ensures
        is_turned_right(project::turned(rect, 3), rect, 8 * turning_slack(rect)),
{
    let once = rect.turned_right();
    let twice = once.turned_right();
    let thrice = twice.turned_right();
    reveal_with_fuel(project::turned, 4);
    crop_laws::turning_a_crop_keeps_it_valid(rect);
    crop_laws::turning_a_crop_keeps_it_valid(once);
    lemma_small_slack(rect);
    lemma_small_slack(once);
    turning_takes_the_edges_along(rect);
    turning_takes_the_edges_along(once);
    turning_takes_the_edges_along(twice);
}

/// A crop that was turned reaches out of the image by next to nothing.
proof fn lemma_small_slack(rect: CropRect)
    requires
        rect.valid(),
    ensures
        turning_slack(rect) >= 8 * step(),
        turning_slack(rect.turned_right()) <= 10 * step(),
        step() > 0,
{
    let right = rect.turned_right();
    let (out_x, out_y) = (overhang(rect.x, rect.width), overhang(rect.y, rect.height));
    lemma_sizes();
    lemma_valid_direction(rect.x, rect.width);
    lemma_valid_direction(rect.y, rect.height);
    lemma_kept(rect.x, rect.width, out_x);
    lemma_mirrored(rect.y, rect.height, out_y);
    assert(right.x == mirrored(rect.y, rect.height) && right.y == kept(rect.x, rect.width));
    assert(right.width == kept_extent(rect.height) && right.height == kept_extent(rect.width));
}

} // verus!
