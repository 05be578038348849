//! Sizes and places of images.

use vstd::prelude::*;

use crate::document::project::{DocumentView, ProjectDocument};
use crate::document::turn_laws;
use crate::document::values::CropRect;
use crate::number::constants;
use crate::number::laws;
use crate::number::scalar::Scalar;
use crate::number::wide::Wide;
use crate::number::wide_constants;
use crate::render::contracts::{ImageInfo, RenderError, Viewport};
use crate::render::extent_laws;
use crate::render::straighten_laws;

verus! {

/// The sine and the cosine of the size of a straightening angle.
#[derive(Clone, Copy, Debug, PartialEq)]
pub struct Angle {
    pub sine: Wide,
    pub cosine: Wide,
}

/// A rectangle of pixels.
#[derive(Clone, Copy, Debug, PartialEq, Eq, Structural)]
pub struct Area {
    pub left: i32,
    pub top: i32,
    pub width: i32,
    pub height: i32,
}

pub open spec fn min(a: int, b: int) -> int {
    if a <= b {
        a
    } else {
        b
    }
}

pub open spec fn max(a: int, b: int) -> int {
    if a >= b {
        a
    } else {
        b
    }
}

/// An integer held within bounds.
pub open spec fn held(n: int, low: int, high: int) -> int {
    if n < low {
        low
    } else if n > high {
        high
    } else {
        n
    }
}

/// The sides of the largest rectangle inside a turned one, the longer side
/// first. Half the shorter side decides where the rectangle is narrow or the
/// angle is an eighth turn.
pub open spec fn inner_sides(long: Wide, short: Wide, angle: Angle) -> (Wide, Wide) {
    let two = Wide { bits: wide_constants::TWO };
    let half = Wide { bits: wide_constants::HALF };
    let epsilon = Wide { bits: wide_constants::EPSILON };
    let (sine, cosine) = (angle.sine, angle.cosine);
    if short.at_most(two.product(sine).product(cosine).product(long)) || sine.difference(
        cosine,
    ).size().below(epsilon) {
        let half_short = half.product(short);
        (
            half_short.quotient(sine.greater(epsilon)),
            half_short.quotient(cosine.greater(epsilon)),
        )
    } else {
        let double = cosine.product(cosine).difference(sine.product(sine));
        (
            long.product(cosine).difference(short.product(sine)).quotient(double),
            short.product(cosine).difference(long.product(sine)).quotient(double),
        )
    }
}

/// The width and the height of the largest rectangle inside a turned one.
pub open spec fn inner_rectangle(width: Wide, height: Wide, angle: Angle) -> (Wide, Wide) {
    if height.at_most(width) {
        inner_sides(width, height, angle)
    } else {
        let (long, short) = inner_sides(height, width, angle);
        (short, long)
    }
}

/// Finds the largest rectangle inside a turned one.
pub fn largest_rotated_rect(width: Wide, height: Wide, angle: Angle) -> (result: (Wide, Wide))
    ensures
        result == inner_rectangle(width, height, angle),
{
    let two: Wide = Wide { bits: wide_constants::TWO };
    let half: Wide = Wide { bits: wide_constants::HALF };
    let epsilon: Wide = Wide { bits: wide_constants::EPSILON };
    let (sine, cosine): (Wide, Wide) = (angle.sine, angle.cosine);
    let width_is_longer: bool = height.less_or_equal(width);
    let (long, short): (Wide, Wide) = if width_is_longer {
        (width, height)
    } else {
        (height, width)
    };
    let (inner_long, inner_short): (Wide, Wide) = if short.less_or_equal(
        two.times(sine).times(cosine).times(long),
    ) || sine.minus(cosine).abs().less(epsilon) {
        let half_short: Wide = half.times(short);
        (half_short.over(sine.max(epsilon)), half_short.over(cosine.max(epsilon)))
    } else {
        let double: Wide = cosine.times(cosine).minus(sine.times(sine));
        (
            long.times(cosine).minus(short.times(sine)).over(double),
            short.times(cosine).minus(long.times(sine)).over(double),
        )
    };
    if width_is_longer {
        (inner_long, inner_short)
    } else {
        (inner_short, inner_long)
    }
}

/// Whether an angle straightens at all.
pub open spec fn straightens(degrees: Scalar) -> bool {
    !degrees.size().at_most(Scalar { bits: constants::EPSILON })
}

/// The size that straightening leaves of an image.
pub open spec fn straightened(width: u32, height: u32, degrees: Scalar, angle: Angle) -> (
    int,
    int,
) {
    if straightens(degrees) {
        let (inner_width, inner_height) = inner_rectangle(
            Wide::integer(width as int),
            Wide::integer(height as int),
            angle,
        );
        (
            max(inner_width.nearest_within(0, u32::MAX as int), 1),
            max(inner_height.nearest_within(0, u32::MAX as int), 1),
        )
    } else {
        (width as int, height as int)
    }
}

/// Computes the size that straightening leaves of an image.
pub fn straightened_dimensions(width: u32, height: u32, degrees: Scalar, angle: Angle) -> (result:
    (u32, u32))
    ensures
        (result.0 as int, result.1 as int) == straightened(width, height, degrees, angle),
        straightens(degrees) && straighten_laws::is_photo_at_an_angle(width, height, angle)
            ==> straighten_laws::is_what_straightening_leaves(
            (ImageInfo { width, height }),
            angle,
            result.0 as int,
            result.1 as int,
        ),
        !straightens(degrees) ==> result == (width, height),
{
    proof {
        if straightens(degrees) && straighten_laws::is_photo_at_an_angle(width, height, angle) {
            straighten_laws::a_straightened_photo_is_the_largest_that_fits(
                width,
                height,
                degrees,
                angle,
            );
        }
    }
    if degrees.abs().less_or_equal(Scalar { bits: constants::EPSILON }) {
        return (width, height);
    }
    let (inner_width, inner_height): (Wide, Wide) = largest_rotated_rect(
        Wide::from_integer(width as i64),
        Wide::from_integer(height as i64),
        angle,
    );
    let inner_width: u32 = inner_width.round_to_u32();
    let inner_height: u32 = inner_height.round_to_u32();
    (
        if inner_width >= 1 {
            inner_width
        } else {
            1
        },
        if inner_height >= 1 {
            inner_height
        } else {
            1
        },
    )
}

/// A cropped extent in pixels.
pub open spec fn cropped_extent(whole: int, fraction: Scalar) -> int {
    max(Scalar::integer(whole).product(fraction).nearest_within(0, u32::MAX as int), 1)
}

fn crop_extent(whole: u32, fraction: Scalar) -> (extent: u32)
    ensures
        extent == cropped_extent(whole as int, fraction),
{
    let extent: u32 = Scalar::from_integer(whole as i64).times(fraction).round_to_u32();
    if extent >= 1 {
        extent
    } else {
        1
    }
}

/// Whether a frame is drawn.
pub open spec fn frame_is_drawn(width_pct: Scalar) -> bool {
    (Scalar { bits: constants::EPSILON }).below(width_pct)
}

/// The width of a frame, before it is rounded.
pub open spec fn border_width(shorter_side: int, width_pct: Scalar) -> Scalar {
    Scalar::integer(shorter_side).product(width_pct).quotient(Scalar { bits: constants::HUNDRED })
}

impl DocumentView {
    /// The size of the photo after rotation and straightening.
    pub open spec fn geometry(self, width: u32, height: u32, angle: Angle) -> (int, int) {
        if self.turns() % 2 == 0 {
            straightened(width, height, self.degrees(), angle)
        } else {
            straightened(height, width, self.degrees(), angle)
        }
    }

    /// The size of the photo when it is exported.
    pub open spec fn output(self, width: u32, height: u32, angle: Angle) -> (int, int) {
        let (turned_width, turned_height) = self.geometry(width, height, angle);
        let cropped_width = cropped_extent(turned_width, self.crop().width);
        let cropped_height = cropped_extent(turned_height, self.crop().height);
        if frame_is_drawn(self.border().0) {
            let border = max(
                border_width(min(cropped_width, cropped_height), self.border().0).nearest_within(
                    0,
                    u32::MAX as int,
                ),
                1,
            );
            (cropped_width + 2 * border, cropped_height + 2 * border)
        } else {
            (cropped_width, cropped_height)
        }
    }
}

impl ProjectDocument {
    /// The size of the photo after rotation and straightening. The angle is
    /// that of the document.
    #[must_use]
    pub fn geometry_dimensions(&self, source_width: u32, source_height: u32, angle: Angle) -> (size:
        (u32, u32))
        ensures
            (size.0 as int, size.1 as int) == self@.geometry(source_width, source_height, angle),
            !straightens(self@.degrees()) && (self@.turns() == 0 || self@.turns() == 2) ==> size
                == (source_width, source_height),
            !straightens(self@.degrees()) && (self@.turns() == 1 || self@.turns() == 3) ==> size
                == (source_height, source_width),
    {
        let degrees: Scalar = self.straighten_degrees();
        if self.rotation_quarter_turns() % 2 == 0 {
            straightened_dimensions(source_width, source_height, degrees, angle)
        } else {
            straightened_dimensions(source_height, source_width, degrees, angle)
        }
    }

    /// The size of the photo when it is exported. The angle is that of the
    /// document.
    #[must_use]
    pub fn output_dimensions(&self, source_width: u32, source_height: u32, angle: Angle) -> (size: (
        u64,
        u64,
    ))
        ensures
            (size.0 as int, size.1 as int) == self@.output(source_width, source_height, angle),
    {
        let (turned_width, turned_height): (u32, u32) = self.geometry_dimensions(
            source_width,
            source_height,
            angle,
        );
        let crop: CropRect = self.crop_rect();
        let width: u32 = crop_extent(turned_width, crop.width);
        let height: u32 = crop_extent(turned_height, crop.height);
        let frame_width_pct: Scalar = self.frame().0;
        let epsilon: Scalar = Scalar { bits: constants::EPSILON };
        if epsilon.less(frame_width_pct) {
            let shorter: u32 = if width <= height {
                width
            } else {
                height
            };
            let border: u32 = Scalar::from_integer(shorter as i64).times(frame_width_pct).over(
                Scalar { bits: constants::HUNDRED },
            ).round_to_u32();
            let border: u64 = if border >= 1 {
                border as u64
            } else {
                1
            };
            (width as u64 + 2 * border, height as u64 + 2 * border)
        } else {
            (width as u64, height as u64)
        }
    }
}

/// The edges of a crop in pixels, from one end of the image: rounded outwards.
pub open spec fn crop_edges(whole: u32, start: Scalar, extent: Scalar) -> (int, int) {
    let pixels = Scalar::integer(whole as int);
    (
        start.product(pixels).floor_within(i32::MIN as int, i32::MAX as int),
        start.sum(extent).product(pixels).ceiling_within(i32::MIN as int, i32::MAX as int),
    )
}

/// Whether a crop begins before the end of the image, and is not too large to
/// count.
pub open spec fn begins_inside(info: ImageInfo, crop: CropRect) -> bool {
    &&& info.width <= i32::MAX
    &&& info.height <= i32::MAX
    &&& crop_edges(info.width, crop.x, crop.width).0 < info.width
    &&& crop_edges(info.height, crop.y, crop.height).0 < info.height
    &&& cropped_area(info, crop).2 <= i32::MAX
    &&& cropped_area(info, crop).3 <= i32::MAX
}

/// The pixels of a crop: at least one either way, and none beyond the image.
pub open spec fn cropped_area(info: ImageInfo, crop: CropRect) -> (int, int, int, int) {
    let (left, right) = crop_edges(info.width, crop.x, crop.width);
    let (top, bottom) = crop_edges(info.height, crop.y, crop.height);
    (
        left,
        top,
        held(right, left + 1, info.width as int) - left,
        held(bottom, top + 1, info.height as int) - top,
    )
}

impl Area {
    pub open spec fn numbers(self) -> (int, int, int, int) {
        (self.left as int, self.top as int, self.width as int, self.height as int)
    }

    /// Whether the area lies in an image.
    pub open spec fn inside(self, info: ImageInfo) -> bool {
        &&& 0 <= self.left
        &&& 0 <= self.top
        &&& 0 < self.width
        &&& 0 < self.height
        &&& self.left + self.width <= info.width
        &&& self.top + self.height <= info.height
    }
}

fn edges(whole: u32, start: Scalar, extent: Scalar) -> (result: (i32, i32))
    ensures
        (result.0 as int, result.1 as int) == crop_edges(whole, start, extent),
{
    let pixels: Scalar = Scalar::from_integer(whole as i64);
    (start.times(pixels).floor_to_i32(), start.plus(extent).times(pixels).ceil_to_i32())
}

/// Tests whether a crop begins before the end of the image.
pub fn crop_begins_inside(info: ImageInfo, crop: CropRect) -> (result: bool)
    ensures
        result == begins_inside(info, crop),
{
    if info.width > i32::MAX as u32 || info.height > i32::MAX as u32 {
        return false;
    }
    let (left, right): (i32, i32) = edges(info.width, crop.x, crop.width);
    let (top, bottom): (i32, i32) = edges(info.height, crop.y, crop.height);
    left < info.width as i32 && top < info.height as i32 && clamp(
        right,
        left + 1,
        info.width as i32,
    ) as i64 - left as i64 <= i32::MAX as i64 && clamp(
        bottom,
        top + 1,
        info.height as i32,
    ) as i64 - top as i64 <= i32::MAX as i64
}

/// Finds the pixels of a crop.
pub fn crop_area(info: ImageInfo, crop: CropRect) -> (area: Area)
    requires
        begins_inside(info, crop),
    ensures
        area.numbers() == cropped_area(info, crop),
        area.left >= 0 && area.top >= 0 ==> area.inside(info),
        crop.valid() && 0 < info.width && 0 < info.height ==> extent_laws::is_part(
            area.left as int,
            area.width as int,
            info.width as int,
            crop.x,
            crop.width,
        ) && extent_laws::is_part(
            area.top as int,
            area.height as int,
            info.height as int,
            crop.y,
            crop.height,
        ),
{
    proof {
        if crop.valid() && 0 < info.width && 0 < info.height {
            extent_laws::a_crop_cuts_out_what_it_covers(info, crop);
        }
    }
    let (left, right): (i32, i32) = edges(info.width, crop.x, crop.width);
    let (top, bottom): (i32, i32) = edges(info.height, crop.y, crop.height);
    Area {
        left,
        top,
        width: clamp(right, left + 1, info.width as i32) - left,
        height: clamp(bottom, top + 1, info.height as i32) - top,
    }
}

fn clamp(n: i32, low: i32, high: i32) -> (result: i32)
    requires
        low <= high,
    ensures
        result == held(n as int, low as int, high as int),
{
    if n < low {
        low
    } else if n > high {
        high
    } else {
        n
    }
}

/// The border of a frame round an image, and the size with it.
#[derive(Clone, Copy, Debug, PartialEq, Eq, Structural)]
pub struct FrameLayout {
    pub border: i32,
    pub width: i32,
    pub height: i32,
}

/// The border of a frame in pixels.
pub open spec fn frame_border(width: int, height: int, width_pct: Scalar) -> int {
    max(
        border_width(min(width, height), width_pct).nearest_within(
            i32::MIN as int,
            i32::MAX as int,
        ),
        1,
    )
}

/// Lays a frame round an image. There is none where the result would be too
/// large for an image.
pub fn frame_layout(width: i32, height: i32, width_pct: Scalar) -> (layout: Option<FrameLayout>)
    requires
        width > 0,
        height > 0,
    ensures
        ({
            let border = frame_border(width as int, height as int, width_pct);
            if width + 2 * border <= i32::MAX && height + 2 * border <= i32::MAX {
                layout == Some(
                    FrameLayout {
                        border: border as i32,
                        width: (width + 2 * border) as i32,
                        height: (height + 2 * border) as i32,
                    },
                )
            } else {
                layout is None
            }
        }),
        layout matches Some(found) ==> {
            &&& found.width == width + 2 * found.border
            &&& found.height == height + 2 * found.border
            &&& width_pct.finite() && 0 <= laws::exact(width_pct) <= 50 * turn_laws::whole()
                ==> extent_laws::is_border(
                found.border as int,
                if width <= height {
                    width as int
                } else {
                    height as int
                },
                width_pct,
            )
        },
{
    proof {
        if width_pct.finite() && 0 <= laws::exact(width_pct) <= 50 * turn_laws::whole() {
            extent_laws::a_border_is_its_share(
                min(width as int, height as int),
                width_pct,
                i32::MIN as int,
                i32::MAX as int,
            );
        }
    }
    let shorter: i32 = if width <= height {
        width
    } else {
        height
    };
    let border: i32 = Scalar::from_integer(shorter as i64).times(width_pct).over(
        Scalar { bits: constants::HUNDRED },
    ).round_to_i32();
    let border: i64 = if border >= 1 {
        border as i64
    } else {
        1
    };
    if width as i64 + 2 * border <= i32::MAX as i64 && height as i64 + 2 * border
        <= i32::MAX as i64 {
        Some(
            FrameLayout {
                border: border as i32,
                width: (width as i64 + 2 * border) as i32,
                height: (height as i64 + 2 * border) as i32,
            },
        )
    } else {
        None
    }
}

/// The extent that is cut from the middle of a turned image.
pub open spec fn straight_extent(inner: Wide, turned: u32) -> int {
    min(held(inner.nearest_within(0, u32::MAX as int), 1, turned as int), i32::MAX as int)
}

/// The area in the middle of a turned image that straightening leaves of its
/// source.
pub open spec fn straight_area(source: ImageInfo, turned: ImageInfo, angle: Angle) -> (
    int,
    int,
    int,
    int,
) {
    let (inner_width, inner_height) = inner_rectangle(
        Wide::integer(source.width as int),
        Wide::integer(source.height as int),
        angle,
    );
    let width = straight_extent(inner_width, turned.width);
    let height = straight_extent(inner_height, turned.height);
    ((turned.width - width) / 2, (turned.height - height) / 2, width, height)
}

/// The area in the middle of an image that straightening leaves. `turned` is
/// the size of the image after turning.
pub fn straighten_area(source: ImageInfo, turned: ImageInfo, angle: Angle) -> (area: Area)
    requires
        0 < turned.width <= i32::MAX,
        0 < turned.height <= i32::MAX,
    ensures
        area.numbers() == straight_area(source, turned, angle),
        area.inside(turned),
        straighten_laws::has_room_for_the_inner_rectangle(source, turned, angle)
            ==> straighten_laws::is_what_straightening_leaves(
            source,
            angle,
            area.width as int,
            area.height as int,
        ) && straighten_laws::lies_in_the_middle(area.numbers(), turned),
{
    proof {
        if straighten_laws::has_room_for_the_inner_rectangle(source, turned, angle) {
            straighten_laws::the_straight_area_is_the_largest_that_fits(source, turned, angle);
        }
    }
    let (inner_width, inner_height): (Wide, Wide) = largest_rotated_rect(
        Wide::from_integer(source.width as i64),
        Wide::from_integer(source.height as i64),
        angle,
    );
    let width: u32 = clamp_u32(inner_width.round_to_u32(), 1, turned.width);
    let height: u32 = clamp_u32(inner_height.round_to_u32(), 1, turned.height);
    Area {
        left: ((turned.width - width) / 2) as i32,
        top: ((turned.height - height) / 2) as i32,
        width: width as i32,
        height: height as i32,
    }
}

fn clamp_u32(n: u32, low: u32, high: u32) -> (result: u32)
    requires
        low <= high,
    ensures
        result == held(n as int, low as int, high as int),
{
    if n < low {
        low
    } else if n > high {
        high
    } else {
        n
    }
}

/// How much of an image goes onto a canvas, and where.
#[derive(Clone, Copy, Debug, PartialEq, Eq, Structural)]
pub struct CanvasPlacement {
    pub cut: Option<Area>,
    pub left: i32,
    pub top: i32,
    pub width: i32,
    pub height: i32,
}

/// An image in the middle of a canvas: cut to the canvas where it is larger,
/// with an even border where it is smaller.
pub open spec fn on_canvas(info: ImageInfo, viewport: Viewport) -> CanvasPlacement {
    let visible_width = min(info.width as int, viewport.output_width as int);
    let visible_height = min(info.height as int, viewport.output_height as int);
    CanvasPlacement {
        cut: if visible_width == info.width && visible_height == info.height {
            None
        } else {
            Some(
                Area {
                    left: ((info.width - visible_width) / 2) as i32,
                    top: ((info.height - visible_height) / 2) as i32,
                    width: visible_width as i32,
                    height: visible_height as i32,
                },
            )
        },
        left: ((viewport.output_width - visible_width) / 2) as i32,
        top: ((viewport.output_height - visible_height) / 2) as i32,
        width: viewport.output_width as i32,
        height: viewport.output_height as i32,
    }
}

/// Places an image on the canvas of a viewport.
pub fn fit_to_canvas(info: ImageInfo, viewport: Viewport) -> (result: Result<
    CanvasPlacement,
    RenderError,
>)
    requires
        info.width <= i32::MAX,
        info.height <= i32::MAX,
    ensures
        match result {
            Ok(placement) => {
                &&& viewport.output_width <= i32::MAX
                &&& viewport.output_height <= i32::MAX
                &&& placement == on_canvas(info, viewport)
                &&& extent_laws::stands_in_the_middle(info, viewport, placement)
            },
            Err(error) => {
                &&& viewport.output_width > i32::MAX || viewport.output_height > i32::MAX
                &&& error == RenderError::InvalidDimensions
            },
        },
{
    if viewport.output_width > i32::MAX as u32 || viewport.output_height > i32::MAX as u32 {
        return Err(RenderError::InvalidDimensions);
    }
    let visible_width: u32 = if info.width <= viewport.output_width {
        info.width
    } else {
        viewport.output_width
    };
    let visible_height: u32 = if info.height <= viewport.output_height {
        info.height
    } else {
        viewport.output_height
    };
    let cut: Option<Area> = if visible_width == info.width && visible_height == info.height {
        None
    } else {
        Some(
            Area {
                left: ((info.width - visible_width) / 2) as i32,
                top: ((info.height - visible_height) / 2) as i32,
                width: visible_width as i32,
                height: visible_height as i32,
            },
        )
    };
    Ok(
        CanvasPlacement {
            cut,
            left: ((viewport.output_width - visible_width) / 2) as i32,
            top: ((viewport.output_height - visible_height) / 2) as i32,
            width: viewport.output_width as i32,
            height: viewport.output_height as i32,
        },
    )
}

} // verus!
