//! Which part of an image a viewport shows, and at what scale.

use vstd::prelude::*;

use crate::number::constants;
use crate::number::scalar::Scalar;
use crate::number::wide::Wide;
use crate::number::wide_constants;
use crate::render::contracts::{ImageInfo, Viewport};
use crate::render::geometry;
use crate::render::geometry::Area;
use crate::render::view_laws;

verus! {

/// The least and the largest zoom.
pub const LEAST_ZOOM: u32 = 0x3c23_d70a;

pub const LARGEST_ZOOM: u32 = 0x4200_0000;

/// The scale at which an image fits into an output.
pub open spec fn fit_scale(info: ImageInfo, output_width: u32, output_height: u32) -> Wide {
    Wide::integer(output_width as int).quotient(Wide::integer(info.width as int)).lesser(
        Wide::integer(output_height as int).quotient(Wide::integer(info.height as int)),
    )
}

fn scale_to_fit(info: ImageInfo, output_width: u32, output_height: u32) -> (scale: Wide)
    ensures
        scale == fit_scale(info, output_width, output_height),
{
    Wide::from_integer(output_width as i64).over(Wide::from_integer(info.width as i64)).min(
        Wide::from_integer(output_height as i64).over(Wide::from_integer(info.height as i64)),
    )
}

/// Whether a scale leaves an image as it is.
pub open spec fn is_one(scale: Wide) -> bool {
    scale.difference(Wide { bits: wide_constants::ONE }).size().below(
        Wide { bits: wide_constants::EPSILON },
    )
}

/// The scale to resize by, if any.
pub open spec fn resize_by(scale: Wide) -> Option<Wide> {
    if is_one(scale) {
        None
    } else {
        Some(scale)
    }
}

fn resizing(scale: Wide) -> (result: Option<Wide>)
    ensures
        result == resize_by(scale),
{
    if scale.minus(Wide { bits: wide_constants::ONE }).abs().less(
        Wide { bits: wide_constants::EPSILON },
    ) {
        None
    } else {
        Some(scale)
    }
}

/// How the source image is made smaller for fitted previews: to one and a half
/// times the size that is shown, and never larger than it is.
#[derive(Clone, Copy, Debug, PartialEq)]
pub struct ProxyScale {
    pub resize: Option<Wide>,
    pub source_scale: Scalar,
}

pub open spec fn proxy_scale_of(info: ImageInfo, viewport: Viewport) -> Wide {
    fit_scale(info, viewport.output_width, viewport.output_height).product(
        Wide { bits: wide_constants::ONE_AND_A_HALF },
    ).lesser(Wide { bits: wide_constants::ONE })
}

/// Finds the scale of the source image for fitted previews.
pub fn proxy_scale(info: ImageInfo, viewport: Viewport) -> (result: ProxyScale)
    ensures
        result.resize == resize_by(proxy_scale_of(info, viewport)),
        result.source_scale == proxy_scale_of(info, viewport).narrowed(),
{
    let scale: Wide = scale_to_fit(info, viewport.output_width, viewport.output_height).times(
        Wide { bits: wide_constants::ONE_AND_A_HALF },
    ).min(Wide { bits: wide_constants::ONE });
    ProxyScale { resize: resizing(scale), source_scale: scale.narrow() }
}

/// What is cut from an image and how it is resized.
#[derive(Clone, Copy, Debug, PartialEq)]
pub struct ViewportPlan {
    pub cut: Option<Area>,
    pub resize: Option<Wide>,
    pub effective_zoom: Scalar,
}

/// The scale at which a viewport shows an image.
pub open spec fn view_scale(info: ImageInfo, viewport: Viewport) -> Wide {
    if viewport.fits() {
        fit_scale(info, viewport.output_width, viewport.output_height).lesser(
            Wide { bits: wide_constants::ONE },
        )
    } else {
        viewport.zoom.clamped(
            Scalar { bits: LEAST_ZOOM },
            Scalar { bits: LARGEST_ZOOM },
        ).widened()
    }
}

/// How many pixels of an image an output shows at a scale: all of them where
/// the scale is no number.
pub open spec fn shown_extent(output: u32, whole: u32, scale: Wide) -> int {
    let pixels = Wide::integer(output as int).quotient(scale);
    if pixels.nan() {
        whole as int
    } else {
        geometry::max(
            geometry::min(
                pixels.ceiling_within(i32::MIN as int, i32::MAX as int),
                whole as int,
            ),
            1,
        )
    }
}

/// Where the pixels that are shown begin.
pub open spec fn shown_start(center: Scalar, whole: u32, extent: int) -> int {
    let middle = center.clamped(
        Scalar { bits: constants::ZERO },
        Scalar { bits: constants::ONE },
    ).widened().product(Wide::integer(whole as int));
    geometry::held(
        middle.difference(
            Wide::integer(extent).quotient(Wide { bits: wide_constants::TWO }),
        ).nearest_within(i32::MIN as int, i32::MAX as int),
        0,
        geometry::max(whole - extent, 0),
    )
}

fn extent_shown(output: u32, whole: u32, scale: Wide) -> (extent: i32)
    requires
        0 < whole <= i32::MAX,
    ensures
        extent == shown_extent(output, whole, scale),
        0 < extent <= whole,
{
    let pixels: Wide = Wide::from_integer(output as i64).over(scale);
    if pixels.is_nan() {
        return whole as i32;
    }
    let extent: i32 = pixels.ceil_to_i32();
    let extent: i32 = if extent <= whole as i32 {
        extent
    } else {
        whole as i32
    };
    if extent >= 1 {
        extent
    } else {
        1
    }
}

fn start_shown(center: Scalar, whole: u32, extent: i32) -> (start: i32)
    requires
        0 < extent <= whole <= i32::MAX,
    ensures
        start == shown_start(center, whole, extent as int),
        0 <= start <= whole - extent,
{
    let middle: Wide = center.clamp(
        Scalar { bits: constants::ZERO },
        Scalar { bits: constants::ONE },
    ).widen().times(Wide::from_integer(whole as i64));
    let start: i32 = middle.minus(
        Wide::from_integer(extent as i64).over(Wide { bits: wide_constants::TWO }),
    ).round_to_i32();
    let most: i32 = whole as i32 - extent;
    if start < 0 {
        0
    } else if start > most {
        most
    } else {
        start
    }
}

/// Plans what a viewport shows of an image: all of it where it is to be
/// fitted, else the part round the center.
pub fn plan_viewport(info: ImageInfo, viewport: Viewport) -> (plan: ViewportPlan)
    requires
        0 < info.width <= i32::MAX,
        0 < info.height <= i32::MAX,
    ensures
        ({
            let scale = view_scale(info, viewport);
            &&& plan.resize == resize_by(scale)
            &&& plan.effective_zoom == scale.narrowed()
            &&& viewport.fits() ==> plan.cut is None
            &&& !viewport.fits() ==> {
                let width = shown_extent(viewport.output_width, info.width, scale);
                let height = shown_extent(viewport.output_height, info.height, scale);
                &&& plan.cut matches Some(area)
                &&& area.numbers() == (
                    shown_start(viewport.center_x, info.width, width),
                    shown_start(viewport.center_y, info.height, height),
                    width,
                    height,
                )
                &&& area.inside(info)
            }
        }),
        viewport.zoom.finite() && viewport.center_x.finite() && viewport.center_y.finite()
            ==> view_laws::shows(info, viewport, plan),
{
    let plan: ViewportPlan = if viewport.zoom.less_or_equal(Scalar { bits: constants::ZERO }) {
        let scale: Wide = scale_to_fit(info, viewport.output_width, viewport.output_height).min(
            Wide { bits: wide_constants::ONE },
        );
        ViewportPlan { cut: None, resize: resizing(scale), effective_zoom: scale.narrow() }
    } else {
        let scale: Wide = viewport.zoom.clamp(
            Scalar { bits: LEAST_ZOOM },
            Scalar { bits: LARGEST_ZOOM },
        ).widen();
        let width: i32 = extent_shown(viewport.output_width, info.width, scale);
        let height: i32 = extent_shown(viewport.output_height, info.height, scale);
        let area: Area = Area {
            left: start_shown(viewport.center_x, info.width, width),
            top: start_shown(viewport.center_y, info.height, height),
            width,
            height,
        };
        ViewportPlan { cut: Some(area), resize: resizing(scale), effective_zoom: scale.narrow() }
    };
    proof {
        if viewport.zoom.finite() && viewport.center_x.finite() && viewport.center_y.finite() {
            view_laws::a_viewport_is_shown_what_it_asks_for(info, viewport, plan);
        }
    }
    plan
}

/// The viewport on the smaller source image.
pub open spec fn on_proxy(viewport: Viewport, source_scale: Scalar) -> Viewport {
    Viewport {
        zoom: if viewport.fits() {
            Scalar { bits: constants::ZERO }
        } else {
            viewport.zoom.quotient(source_scale)
        },
        ..viewport
    }
}

/// Carries a viewport over to the smaller source image.
pub fn proxy_viewport(viewport: Viewport, source_scale: Scalar) -> (result: Viewport)
    ensures
        result == on_proxy(viewport, source_scale),
{
    let zoom: Scalar = if viewport.zoom.less_or_equal(Scalar { bits: constants::ZERO }) {
        Scalar { bits: constants::ZERO }
    } else {
        viewport.zoom.over(source_scale)
    };
    Viewport {
        output_width: viewport.output_width,
        output_height: viewport.output_height,
        zoom,
        center_x: viewport.center_x,
        center_y: viewport.center_y,
    }
}

} // verus!
