//! Moving and resizing a crop with the pointer.

use vstd::prelude::*;

use crate::document::values::CropRect;
use crate::number::constants;
use crate::number::scalar::Scalar;
use crate::session::drag_laws;
use crate::session::gesture_laws;

verus! {

/// What a gesture takes hold of.
#[derive(Clone, Copy, Debug, PartialEq, Eq, Structural)]
pub enum Grip {
    Inside,
    TopLeft,
    TopRight,
    BottomLeft,
    BottomRight,
    Left,
    Top,
    Right,
    Bottom,
}

/// The grip that a number from the user interface stands for.
pub open spec fn grip_of(kind: i32) -> Option<Grip> {
    match kind {
        0 => Some(Grip::Inside),
        1 => Some(Grip::TopLeft),
        2 => Some(Grip::TopRight),
        3 => Some(Grip::BottomLeft),
        4 => Some(Grip::BottomRight),
        5 => Some(Grip::Left),
        6 => Some(Grip::Top),
        7 => Some(Grip::Right),
        8 => Some(Grip::Bottom),
        _ => None,
    }
}

fn find_grip(kind: i32) -> (grip: Option<Grip>)
    ensures
        grip == grip_of(kind),
{
    match kind {
        0 => Some(Grip::Inside),
        1 => Some(Grip::TopLeft),
        2 => Some(Grip::TopRight),
        3 => Some(Grip::BottomLeft),
        4 => Some(Grip::BottomRight),
        5 => Some(Grip::Left),
        6 => Some(Grip::Top),
        7 => Some(Grip::Right),
        8 => Some(Grip::Bottom),
        _ => None,
    }
}

impl Grip {
    /// Whether the grip moves the left edge.
    pub open spec fn moves_left(self) -> bool {
        self == Grip::TopLeft || self == Grip::BottomLeft || self == Grip::Left
    }

    /// Whether the grip moves the right edge.
    pub open spec fn moves_right(self) -> bool {
        self == Grip::TopRight || self == Grip::BottomRight || self == Grip::Right
    }

    /// Whether the grip moves the top edge.
    pub open spec fn moves_top(self) -> bool {
        self == Grip::TopLeft || self == Grip::TopRight || self == Grip::Top
    }

    /// Whether the grip moves the bottom edge.
    pub open spec fn moves_bottom(self) -> bool {
        self == Grip::BottomLeft || self == Grip::BottomRight || self == Grip::Bottom
    }

    fn pulls_left(self) -> (result: bool)
        ensures
            result == self.moves_left(),
    {
        self == Grip::TopLeft || self == Grip::BottomLeft || self == Grip::Left
    }

    fn pulls_right(self) -> (result: bool)
        ensures
            result == self.moves_right(),
    {
        self == Grip::TopRight || self == Grip::BottomRight || self == Grip::Right
    }

    fn pulls_top(self) -> (result: bool)
        ensures
            result == self.moves_top(),
    {
        self == Grip::TopLeft || self == Grip::TopRight || self == Grip::Top
    }

    fn pulls_bottom(self) -> (result: bool)
        ensures
            result == self.moves_bottom(),
    {
        self == Grip::BottomLeft || self == Grip::BottomRight || self == Grip::Bottom
    }
}

/// One direction of a crop: where it starts and how far it goes.
#[derive(Clone, Copy, Debug, PartialEq)]
pub struct Span {
    pub start: Scalar,
    pub extent: Scalar,
}

impl Span {
    /// Where the span ends.
    pub open spec fn end(self) -> Scalar {
        self.start.sum(self.extent)
    }

    /// The span moved, within the whole.
    pub open spec fn moved(self, delta: Scalar) -> Span {
        let zero = Scalar { bits: constants::ZERO };
        let one = Scalar { bits: constants::ONE };
        Span {
            start: self.start.sum(delta).clamped(zero, one.difference(self.extent)),
            extent: self.extent,
        }
    }

    /// Whether the span leaves room to be moved in.
    pub open spec fn can_move(self) -> bool {
        (Scalar { bits: constants::ZERO }).at_most(
            (Scalar { bits: constants::ONE }).difference(self.extent),
        )
    }

    /// The span with its start pulled, its end where it was.
    pub open spec fn start_pulled(self, delta: Scalar) -> Span {
        let zero = Scalar { bits: constants::ZERO };
        let least = Scalar { bits: constants::HUNDREDTH };
        let start = self.start.sum(delta).clamped(zero, self.end().difference(least));
        Span { start, extent: self.end().difference(start) }
    }

    /// Whether the start can be pulled.
    pub open spec fn start_can_be_pulled(self) -> bool {
        (Scalar { bits: constants::ZERO }).at_most(
            self.end().difference(Scalar { bits: constants::HUNDREDTH }),
        )
    }

    /// The span with its end pulled, its start where it was.
    pub open spec fn end_pulled(self, delta: Scalar) -> Span {
        let one = Scalar { bits: constants::ONE };
        let least = Scalar { bits: constants::HUNDREDTH };
        let end = self.end().sum(delta).clamped(self.start.sum(least), one);
        Span { start: self.start, extent: end.difference(self.start) }
    }

    /// Whether the end can be pulled.
    pub open spec fn end_can_be_pulled(self) -> bool {
        self.start.sum(Scalar { bits: constants::HUNDREDTH }).at_most(
            Scalar { bits: constants::ONE },
        )
    }

    /// The span after a free pull.
    pub open spec fn pulled(self, at_start: bool, at_end: bool, delta: Scalar) -> Span {
        if at_start {
            self.start_pulled(delta)
        } else if at_end {
            self.end_pulled(delta)
        } else {
            self
        }
    }

    /// Whether a free pull is possible.
    pub open spec fn can_be_pulled(self, at_start: bool, at_end: bool) -> bool {
        (at_start ==> self.start_can_be_pulled()) && (at_end ==> self.end_can_be_pulled())
    }

    fn finish(self) -> (end: Scalar)
        ensures
            end == self.end(),
    {
        self.start.plus(self.extent)
    }

    fn shift(self, delta: Scalar) -> (span: Span)
        requires
            self.can_move(),
        ensures
            span == self.moved(delta),
    {
        let zero: Scalar = Scalar { bits: constants::ZERO };
        let one: Scalar = Scalar { bits: constants::ONE };
        Span {
            start: self.start.plus(delta).clamp(zero, one.minus(self.extent)),
            extent: self.extent,
        }
    }

    fn pull(self, at_start: bool, at_end: bool, delta: Scalar) -> (span: Span)
        requires
            self.can_be_pulled(at_start, at_end),
        ensures
            span == self.pulled(at_start, at_end, delta),
    {
        let zero: Scalar = Scalar { bits: constants::ZERO };
        let one: Scalar = Scalar { bits: constants::ONE };
        let least: Scalar = Scalar { bits: constants::HUNDREDTH };
        if at_start {
            let start: Scalar = self.start.plus(delta).clamp(zero, self.finish().minus(least));
            Span { start, extent: self.finish().minus(start) }
        } else if at_end {
            let end: Scalar = self.finish().plus(delta).clamp(self.start.plus(least), one);
            Span { start: self.start, extent: end.minus(self.start) }
        } else {
            self
        }
    }
}

/// The horizontal span of a crop.
pub open spec fn across(rect: CropRect) -> Span {
    Span { start: rect.x, extent: rect.width }
}

/// The vertical span of a crop.
pub open spec fn down(rect: CropRect) -> Span {
    Span { start: rect.y, extent: rect.height }
}

/// The crop of two spans.
pub open spec fn spanned(across: Span, down: Span) -> CropRect {
    CropRect { x: across.start, y: down.start, width: across.extent, height: down.extent }
}

/// A crop after a free gesture, before it is brought inside the image.
pub open spec fn freely_changed(
    start: CropRect,
    grip: Grip,
    delta_x: Scalar,
    delta_y: Scalar,
) -> CropRect {
    if grip == Grip::Inside {
        spanned(across(start).moved(delta_x), down(start).moved(delta_y))
    } else {
        spanned(
            across(start).pulled(grip.moves_left(), grip.moves_right(), delta_x),
            down(start).pulled(grip.moves_top(), grip.moves_bottom(), delta_y),
        )
    }
}

/// Whether a free gesture is possible.
pub open spec fn free_change_is_possible(start: CropRect, grip: Grip) -> bool {
    if grip == Grip::Inside {
        across(start).can_move() && down(start).can_move()
    } else {
        &&& across(start).can_be_pulled(grip.moves_left(), grip.moves_right())
        &&& down(start).can_be_pulled(grip.moves_top(), grip.moves_bottom())
    }
}

/// An aspect that can be divided by.
pub open spec fn usable_aspect(aspect: Scalar) -> Scalar {
    aspect.greater(Scalar { bits: constants::EPSILON })
}

/// The largest width at an aspect.
pub open spec fn largest_width(max_width: Scalar, max_height: Scalar, aspect: Scalar) -> Scalar {
    max_width.lesser(max_height.product(aspect))
}

/// The width at an aspect that is nearest to the desired one.
pub open spec fn allowed_width(
    desired: Scalar,
    max_width: Scalar,
    max_height: Scalar,
    aspect: Scalar,
) -> Scalar {
    let least = Scalar { bits: constants::HUNDREDTH };
    let most = largest_width(max_width, max_height, aspect);
    desired.clamped(least.greater(least.product(aspect)).lesser(most), most)
}

/// Finds the width and the height at an aspect.
pub fn constrained_crop_size(
    desired_width: Scalar,
    max_width: Scalar,
    max_height: Scalar,
    aspect: Scalar,
) -> (size: (Scalar, Scalar))
    requires
        !largest_width(max_width, max_height, aspect).nan(),
    ensures
        size.0 == allowed_width(desired_width, max_width, max_height, aspect),
        size.1 == size.0.quotient(aspect),
{
    let least: Scalar = Scalar { bits: constants::HUNDREDTH };
    let most: Scalar = max_width.min(max_height.times(aspect));
    let fewest: Scalar = least.max(least.times(aspect)).min(most);
    let width: Scalar = desired_width.clamp(fewest, most);
    (width, width.over(aspect))
}

/// How long a span is to become by a pull.
pub open spec fn asked_extent(span: Span, at_start: bool, delta: Scalar) -> Scalar {
    if at_start {
        span.end().difference(span.start.sum(delta))
    } else {
        span.end().sum(delta).difference(span.start)
    }
}

/// How long a span may become by a pull at one end.
pub open spec fn room(span: Span, at_start: bool) -> Scalar {
    if at_start {
        span.end()
    } else {
        (Scalar { bits: constants::ONE }).difference(span.start)
    }
}

/// How far the middle of a span is from its start.
pub open spec fn middle(span: Span) -> Scalar {
    span.start.sum(span.extent.quotient(Scalar { bits: constants::TWO }))
}

/// How long a span may become round its middle.
pub open spec fn room_round_middle(span: Span) -> Scalar {
    (Scalar { bits: constants::TWO }).product(
        middle(span).lesser((Scalar { bits: constants::ONE }).difference(middle(span))),
    )
}

/// A span of a new length that keeps one end.
pub open spec fn keeping_an_end(span: Span, at_start: bool, extent: Scalar) -> Span {
    Span {
        start: if at_start {
            span.end().difference(extent)
        } else {
            span.start
        },
        extent,
    }
}

/// A span of a new length that keeps its middle.
pub open spec fn keeping_the_middle(span: Span, extent: Scalar) -> Span {
    Span {
        start: middle(span).difference(extent.quotient(Scalar { bits: constants::TWO })),
        extent,
    }
}

/// Whether the change of the width is the larger one.
pub open spec fn width_drives(start: CropRect, width: Scalar, height: Scalar) -> bool {
    height.difference(start.height).quotient(start.height).size().at_most(
        width.difference(start.width).quotient(start.width).size(),
    )
}

/// The width that a gesture at an aspect asks for, and the room for it.
pub open spec fn asked_size(
    start: CropRect,
    grip: Grip,
    delta_x: Scalar,
    delta_y: Scalar,
    aspect: Scalar,
) -> (Scalar, Scalar, Scalar) {
    let least = Scalar { bits: constants::HUNDREDTH };
    match grip {
        Grip::Left | Grip::Right => (
            asked_extent(across(start), grip == Grip::Left, delta_x),
            room(across(start), grip == Grip::Left),
            room_round_middle(down(start)),
        ),
        Grip::Top | Grip::Bottom => (
            asked_extent(down(start), grip == Grip::Top, delta_y).product(aspect),
            room_round_middle(across(start)),
            room(down(start), grip == Grip::Top),
        ),
        _ => {
            let width = asked_extent(across(start), grip.moves_left(), delta_x).greater(least);
            let height = asked_extent(down(start), grip.moves_top(), delta_y).greater(least);
            (
                if width_drives(start, width, height) {
                    width
                } else {
                    height.product(aspect)
                },
                room(across(start), grip.moves_left()),
                room(down(start), grip.moves_top()),
            )
        },
    }
}

/// A crop after a gesture at an aspect, before it is brought inside the image.
pub open spec fn changed_at_aspect(
    start: CropRect,
    grip: Grip,
    delta_x: Scalar,
    delta_y: Scalar,
    aspect: Scalar,
) -> CropRect {
    let (desired, max_width, max_height) = asked_size(start, grip, delta_x, delta_y, aspect);
    let width = allowed_width(desired, max_width, max_height, aspect);
    let height = width.quotient(aspect);
    match grip {
        Grip::Left | Grip::Right => spanned(
            keeping_an_end(across(start), grip == Grip::Left, width),
            keeping_the_middle(down(start), height),
        ),
        Grip::Top | Grip::Bottom => spanned(
            keeping_the_middle(across(start), width),
            keeping_an_end(down(start), grip == Grip::Top, height),
        ),
        _ => spanned(
            keeping_an_end(across(start), grip.moves_left(), width),
            keeping_an_end(down(start), grip.moves_top(), height),
        ),
    }
}

/// Whether a gesture at an aspect is possible.
pub open spec fn change_at_aspect_is_possible(
    start: CropRect,
    grip: Grip,
    delta_x: Scalar,
    delta_y: Scalar,
    aspect: Scalar,
) -> bool {
    let (desired, max_width, max_height) = asked_size(start, grip, delta_x, delta_y, aspect);
    !largest_width(max_width, max_height, aspect).nan()
}

/// A crop after a gesture, before it is brought inside the image.
pub open spec fn changed(
    start: CropRect,
    grip: Grip,
    delta_x: Scalar,
    delta_y: Scalar,
    locked_aspect: Option<Scalar>,
) -> CropRect {
    match locked_aspect {
        Some(aspect) => if grip == Grip::Inside {
            freely_changed(start, grip, delta_x, delta_y)
        } else {
            changed_at_aspect(start, grip, delta_x, delta_y, usable_aspect(aspect))
        },
        None => freely_changed(start, grip, delta_x, delta_y),
    }
}

/// Whether a gesture is possible: the crop has room for it, and its extents
/// are numbers afterwards.
pub open spec fn change_is_possible(
    start: CropRect,
    grip: Grip,
    delta_x: Scalar,
    delta_y: Scalar,
    locked_aspect: Option<Scalar>,
) -> bool {
    &&& match locked_aspect {
        Some(aspect) => if grip == Grip::Inside {
            free_change_is_possible(start, grip)
        } else {
            change_at_aspect_is_possible(start, grip, delta_x, delta_y, usable_aspect(aspect))
        },
        None => free_change_is_possible(start, grip),
    }
    &&& changed(start, grip, delta_x, delta_y, locked_aspect).measurable()
}

fn span_across(rect: CropRect) -> (span: Span)
    ensures
        span == across(rect),
{
    Span { start: rect.x, extent: rect.width }
}

fn span_down(rect: CropRect) -> (span: Span)
    ensures
        span == down(rect),
{
    Span { start: rect.y, extent: rect.height }
}

fn rect_of(across: Span, down: Span) -> (rect: CropRect)
    ensures
        rect == spanned(across, down),
{
    CropRect { x: across.start, y: down.start, width: across.extent, height: down.extent }
}

fn extent_asked(span: Span, at_start: bool, delta: Scalar) -> (extent: Scalar)
    ensures
        extent == asked_extent(span, at_start, delta),
{
    if at_start {
        span.finish().minus(span.start.plus(delta))
    } else {
        span.finish().plus(delta).minus(span.start)
    }
}

fn room_left(span: Span, at_start: bool) -> (extent: Scalar)
    ensures
        extent == room(span, at_start),
{
    if at_start {
        span.finish()
    } else {
        Scalar { bits: constants::ONE }.minus(span.start)
    }
}

fn middle_of(span: Span) -> (place: Scalar)
    ensures
        place == middle(span),
{
    span.start.plus(span.extent.over(Scalar { bits: constants::TWO }))
}

fn room_left_round_middle(span: Span) -> (extent: Scalar)
    ensures
        extent == room_round_middle(span),
{
    let place: Scalar = middle_of(span);
    Scalar { bits: constants::TWO }.times(place.min(Scalar { bits: constants::ONE }.minus(place)))
}

fn keep_an_end(span: Span, at_start: bool, extent: Scalar) -> (result: Span)
    ensures
        result == keeping_an_end(span, at_start, extent),
{
    Span {
        start: if at_start {
            span.finish().minus(extent)
        } else {
            span.start
        },
        extent,
    }
}

fn keep_the_middle(span: Span, extent: Scalar) -> (result: Span)
    ensures
        result == keeping_the_middle(span, extent),
{
    Span {
        start: middle_of(span).minus(extent.over(Scalar { bits: constants::TWO })),
        extent,
    }
}

/// Finds the width that a gesture at an aspect asks for, and the room for it.
fn size_asked(start: CropRect, grip: Grip, delta_x: Scalar, delta_y: Scalar, aspect: Scalar) -> (
    size: (Scalar, Scalar, Scalar))
    requires
        grip != Grip::Inside,
    ensures
        size == asked_size(start, grip, delta_x, delta_y, aspect),
{
    let least: Scalar = Scalar { bits: constants::HUNDREDTH };
    let across: Span = span_across(start);
    let down: Span = span_down(start);
    match grip {
        Grip::Left | Grip::Right => (
            extent_asked(across, grip == Grip::Left, delta_x),
            room_left(across, grip == Grip::Left),
            room_left_round_middle(down),
        ),
        Grip::Top | Grip::Bottom => (
            extent_asked(down, grip == Grip::Top, delta_y).times(aspect),
            room_left_round_middle(across),
            room_left(down, grip == Grip::Top),
        ),
        _ => {
            let width: Scalar = extent_asked(across, grip.pulls_left(), delta_x).max(least);
            let height: Scalar = extent_asked(down, grip.pulls_top(), delta_y).max(least);
            let width_driven: bool = height.minus(start.height).over(
                start.height,
            ).abs().less_or_equal(width.minus(start.width).over(start.width).abs());
            let desired: Scalar = if width_driven {
                width
            } else {
                height.times(aspect)
            };
            (desired, room_left(across, grip.pulls_left()), room_left(down, grip.pulls_top()))
        },
    }
}

fn change_at_aspect(
    start: CropRect,
    grip: Grip,
    delta_x: Scalar,
    delta_y: Scalar,
    aspect: Scalar,
) -> (rect: CropRect)
    requires
        grip != Grip::Inside,
        change_at_aspect_is_possible(start, grip, delta_x, delta_y, aspect),
    ensures
        rect == changed_at_aspect(start, grip, delta_x, delta_y, aspect),
{
    let across: Span = span_across(start);
    let down: Span = span_down(start);
    let (desired, max_width, max_height): (Scalar, Scalar, Scalar) = size_asked(
        start,
        grip,
        delta_x,
        delta_y,
        aspect,
    );
    let (width, height): (Scalar, Scalar) = constrained_crop_size(
        desired,
        max_width,
        max_height,
        aspect,
    );
    match grip {
        Grip::Left | Grip::Right => rect_of(
            keep_an_end(across, grip == Grip::Left, width),
            keep_the_middle(down, height),
        ),
        Grip::Top | Grip::Bottom => rect_of(
            keep_the_middle(across, width),
            keep_an_end(down, grip == Grip::Top, height),
        ),
        _ => rect_of(
            keep_an_end(across, grip.pulls_left(), width),
            keep_an_end(down, grip.pulls_top(), height),
        ),
    }
}

fn change_freely(start: CropRect, grip: Grip, delta_x: Scalar, delta_y: Scalar) -> (rect: CropRect)
    requires
        free_change_is_possible(start, grip),
    ensures
        rect == freely_changed(start, grip, delta_x, delta_y),
{
    let across: Span = span_across(start);
    let down: Span = span_down(start);
    if grip == Grip::Inside {
        rect_of(across.shift(delta_x), down.shift(delta_y))
    } else {
        rect_of(
            across.pull(grip.pulls_left(), grip.pulls_right(), delta_x),
            down.pull(grip.pulls_top(), grip.pulls_bottom(), delta_y),
        )
    }
}

/// The crop after a gesture, if the gesture is known: the start crop with an
/// edge, a corner or all of it moved, at the locked aspect if there is one.
pub fn crop_from_gesture(
    start: CropRect,
    kind: i32,
    delta_x: Scalar,
    delta_y: Scalar,
    locked_aspect: Option<Scalar>,
) -> (rect: Option<CropRect>)
    requires
        grip_of(kind) matches Some(grip) ==> change_is_possible(
            start,
            grip,
            delta_x,
            delta_y,
            locked_aspect,
        ),
    ensures
        rect == match grip_of(kind) {
            Some(grip) => Some(changed(start, grip, delta_x, delta_y, locked_aspect).inside()),
            None => None,
        },
        rect is Some <==> 0 <= kind <= 8,
        gesture_laws::lies_inside(start) && delta_x.finite() && delta_y.finite() && (kind == 0 || (
        locked_aspect is None && 0 <= kind <= 8)) ==> drag_laws::follows_the_pointer(
            start,
            kind,
            delta_x,
            delta_y,
            rect.unwrap(),
        ),
{
    proof {
        if gesture_laws::lies_inside(start) && delta_x.finite() && delta_y.finite() {
            if 0 <= kind <= 8 {
                drag_laws::a_free_gesture_follows_the_pointer(start, kind, delta_x, delta_y);
            }
            drag_laws::a_crop_is_dragged_at_any_aspect(start, delta_x, delta_y, locked_aspect);
        }
    }
    let grip: Grip = match find_grip(kind) {
        Some(grip) => grip,
        None => {
            return None;
        },
    };
    if grip != Grip::Inside {
        if let Some(aspect) = locked_aspect {
            let aspect: Scalar = aspect.max(Scalar { bits: constants::EPSILON });
            let rect: CropRect = change_at_aspect(start, grip, delta_x, delta_y, aspect);
            return Some(rect.normalized());
        }
    }
    Some(change_freely(start, grip, delta_x, delta_y).normalized())
}

/// Whether a span leaves room to be moved in.
fn has_room(span: Span) -> (result: bool)
    ensures
        result == span.can_move(),
{
    let zero: Scalar = Scalar { bits: constants::ZERO };
    zero.less_or_equal(Scalar { bits: constants::ONE }.minus(span.extent))
}

/// Whether a span can be pulled.
fn is_pullable(span: Span, at_start: bool, at_end: bool) -> (result: bool)
    ensures
        result == span.can_be_pulled(at_start, at_end),
{
    let zero: Scalar = Scalar { bits: constants::ZERO };
    let least: Scalar = Scalar { bits: constants::HUNDREDTH };
    (!at_start || zero.less_or_equal(span.finish().minus(least))) && (!at_end || span.start.plus(
        least,
    ).less_or_equal(Scalar { bits: constants::ONE }))
}

fn is_freely_possible(start: CropRect, grip: Grip) -> (result: bool)
    ensures
        result == free_change_is_possible(start, grip),
{
    let across: Span = span_across(start);
    let down: Span = span_down(start);
    if grip == Grip::Inside {
        has_room(across) && has_room(down)
    } else {
        is_pullable(across, grip.pulls_left(), grip.pulls_right()) && is_pullable(
            down,
            grip.pulls_top(),
            grip.pulls_bottom(),
        )
    }
}

/// Tests whether a gesture is possible, as every gesture on a crop inside the
/// image is.
pub fn gesture_is_possible(
    start: CropRect,
    kind: i32,
    delta_x: Scalar,
    delta_y: Scalar,
    locked_aspect: Option<Scalar>,
) -> (result: bool)
    ensures
        result == match grip_of(kind) {
            Some(grip) => change_is_possible(start, grip, delta_x, delta_y, locked_aspect),
            None => true,
        },
{
    let grip: Grip = match find_grip(kind) {
        Some(grip) => grip,
        None => {
            return true;
        },
    };
    let rect: CropRect = if grip != Grip::Inside && locked_aspect.is_some() {
        let aspect: Scalar = locked_aspect.unwrap().max(Scalar { bits: constants::EPSILON });
        let (_, max_width, max_height): (Scalar, Scalar, Scalar) = size_asked(
            start,
            grip,
            delta_x,
            delta_y,
            aspect,
        );
        if max_width.min(max_height.times(aspect)).is_nan() {
            return false;
        }
        change_at_aspect(start, grip, delta_x, delta_y, aspect)
    } else {
        if !is_freely_possible(start, grip) {
            return false;
        }
        change_freely(start, grip, delta_x, delta_y)
    };
    !rect.width.is_nan() && !rect.height.is_nan()
}

} // verus!
