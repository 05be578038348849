//! Requests to the image engine and its answers.

use vstd::prelude::*;

use crate::document::operation::Operation;
use crate::number::constants;
use crate::number::scalar::Scalar;
use crate::text;

verus! {

/// The part of the image that is to be shown: a zoom of zero fits the whole
/// image into the output.
#[derive(Clone, Copy, Debug, PartialEq)]
pub struct Viewport {
    pub output_width: u32,
    pub output_height: u32,
    pub zoom: Scalar,
    pub center_x: Scalar,
    pub center_y: Scalar,
}

impl Viewport {
    /// The whole image in an output of a size.
    #[must_use]
    pub fn fit(output_width: u32, output_height: u32) -> (viewport: Viewport)
        ensures
            viewport == (Viewport {
                output_width,
                output_height,
                zoom: Scalar { bits: constants::ZERO },
                center_x: Scalar { bits: constants::HALF },
                center_y: Scalar { bits: constants::HALF },
            }),
    {
        Viewport {
            output_width,
            output_height,
            zoom: Scalar { bits: constants::ZERO },
            center_x: Scalar { bits: constants::HALF },
            center_y: Scalar { bits: constants::HALF },
        }
    }

    /// An output with an extent, and numbers throughout.
    pub open spec fn valid(self) -> bool {
        &&& self.output_width > 0
        &&& self.output_height > 0
        &&& self.zoom.finite()
        &&& self.center_x.finite()
        &&& self.center_y.finite()
    }

    /// Whether the whole image is to be fitted.
    pub open spec fn fits(self) -> bool {
        self.zoom.at_most(Scalar { bits: constants::ZERO })
    }
}

/// A preview to render.
#[derive(Clone, Debug, PartialEq)]
pub struct PreviewRequest {
    pub generation: u64,
    pub source_path: String,
    pub operations: Vec<Operation>,
    pub viewport: Viewport,
}

/// A preview that was rendered.
#[derive(Clone, Debug, PartialEq)]
pub struct RenderResult {
    pub generation: u64,
    pub width: u32,
    pub height: u32,
    pub rgba8: Vec<u8>,
    pub effective_zoom: Scalar,
}

/// The form of an exported file.
#[derive(Clone, Copy, Debug, PartialEq, Eq, Structural)]
pub enum ExportFormat {
    Jpeg { quality: u8 },
    Png,
    WebP { quality: u8 },
}

/// An export to make.
#[derive(Clone, Debug, PartialEq)]
pub struct ExportRequest {
    pub source_path: String,
    pub destination_path: String,
    pub operations: Vec<Operation>,
    pub format: ExportFormat,
}

/// A copy for the clipboard to make.
#[derive(Clone, Debug, PartialEq)]
pub struct CopyRequest {
    pub source_path: String,
    pub operations: Vec<Operation>,
}

/// The pixels of a copy for the clipboard.
#[derive(Clone, Debug, PartialEq, Eq)]
pub struct CopyResult {
    pub width: u32,
    pub height: u32,
    pub rgba8: Vec<u8>,
}

/// The size of an image.
#[derive(Clone, Copy, Debug, PartialEq, Eq, Structural)]
pub struct ImageInfo {
    pub width: u32,
    pub height: u32,
}

/// Why the engine cannot do what it is asked for.
#[derive(Clone, Debug, PartialEq, Eq)]
pub enum RenderError {
    InvalidDimensions,
    UnsupportedFormat,
    Cancelled,
    Engine(String),
    Io(String),
}

impl RenderError {
    /// The words for the error.
    pub open spec fn words(self) -> Seq<char> {
        match self {
            RenderError::InvalidDimensions => "image dimensions are invalid"@,
            RenderError::UnsupportedFormat => "unsupported output format"@,
            RenderError::Cancelled => "render was cancelled"@,
            RenderError::Engine(reason) => "image engine error: "@ + reason@,
            RenderError::Io(reason) => "I/O error: "@ + reason@,
        }
    }

    /// Says in words what is wrong.
    pub fn message(&self) -> (words: String)
        ensures
            words@ == self.words(),
    {
        match self {
            RenderError::InvalidDimensions => text::copied("image dimensions are invalid"),
            RenderError::UnsupportedFormat => text::copied("unsupported output format"),
            RenderError::Cancelled => text::copied("render was cancelled"),
            RenderError::Engine(reason) => text::joined("image engine error: ", reason.as_str()),
            RenderError::Io(reason) => text::joined("I/O error: ", reason.as_str()),
        }
    }
}

/// Tests a viewport.
pub fn validate_viewport(viewport: Viewport) -> (result: Result<(), RenderError>)
    ensures
        result is Ok <==> viewport.valid(),
        result matches Err(error) ==> error == RenderError::InvalidDimensions,
{
    if viewport.output_width == 0 || viewport.output_height == 0 || !viewport.zoom.is_finite()
        || !viewport.center_x.is_finite() || !viewport.center_y.is_finite() {
        Err(RenderError::InvalidDimensions)
    } else {
        Ok(())
    }
}

/// The size of an image, from the numbers that the image library gives.
pub fn dimensions(width: i32, height: i32) -> (result: Result<ImageInfo, RenderError>)
    ensures
        match result {
            Ok(info) => width > 0 && height > 0 && info.width == width && info.height == height,
            Err(error) => (width <= 0 || height <= 0) && error == RenderError::InvalidDimensions,
        },
{
    if width <= 0 || height <= 0 {
        Err(RenderError::InvalidDimensions)
    } else {
        Ok(ImageInfo { width: width as u32, height: height as u32 })
    }
}

/// Whether a preview has as many bytes as its size asks for.
pub open spec fn has_all_bytes(info: ImageInfo, length: int) -> bool {
    length == info.width * info.height * 4
}

/// The rendered preview from its pixels, if there are as many as there should
/// be.
pub fn finish_preview(
    generation: u64,
    info: ImageInfo,
    rgba8: Vec<u8>,
    effective_zoom: Scalar,
) -> (result: Result<RenderResult, RenderError>)
    ensures
        match result {
            Ok(rendered) => {
                &&& has_all_bytes(info, rgba8@.len() as int)
                &&& rendered == (RenderResult {
                    generation,
                    width: info.width,
                    height: info.height,
                    rgba8,
                    effective_zoom,
                })
            },
            Err(RenderError::Engine(reason)) => {
                &&& !has_all_bytes(info, rgba8@.len() as int)
                &&& reason@ == "libvips returned "@ + text::decimal(rgba8@.len())
                    + " preview bytes; expected "@ + text::decimal(
                    (info.width * info.height * 4) as nat,
                )
            },
            Err(_) => false,
        },
{
    assert(info.width * info.height <= 0xffff_ffff * 0xffff_ffff) by (nonlinear_arith)
        requires
            info.width <= 0xffff_ffff,
            info.height <= 0xffff_ffff,
    ;
    let expected: u128 = info.width as u128 * info.height as u128 * 4;
    if rgba8.len() as u128 != expected {
        let head: String = text::joined(
            "libvips returned ",
            text::decimal_string(rgba8.len() as u64).as_str(),
        );
        let middle: String = text::joined(head.as_str(), " preview bytes; expected ");
        return Err(
            RenderError::Engine(
                text::joined(middle.as_str(), text::large_decimal_string(expected).as_str()),
            ),
        );
    }
    Ok(
        RenderResult {
            generation,
            width: info.width,
            height: info.height,
            rgba8,
            effective_zoom,
        },
    )
}

} // verus!
