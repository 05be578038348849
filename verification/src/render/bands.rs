//! The bands of an image: its colors, and its alpha where it has one.

use vstd::prelude::*;

use crate::render::contracts::RenderError;
use crate::text;

verus! {

/// How many bands of an image are colors: all but the last where that is
/// alpha.
pub open spec fn color_count(bands: u32, has_alpha: bool) -> int {
    if has_alpha {
        bands - 1
    } else {
        bands as int
    }
}

/// Counts the bands that are colors, for an adjustment that works on three.
pub fn split_color_and_alpha(bands: u32, has_alpha: bool, operation_name: &str) -> (result: Result<
    u32,
    RenderError,
>)
    requires
        has_alpha ==> bands > 0,
    ensures
        match result {
            Ok(colors) => colors == 3 && color_count(bands, has_alpha) == 3,
            Err(RenderError::Engine(reason)) => {
                &&& color_count(bands, has_alpha) != 3
                &&& reason@ == operation_name@ + " requires three color bands, got "@
                    + text::decimal(color_count(bands, has_alpha) as nat)
            },
            Err(_) => false,
        },
{
    let colors: u32 = if has_alpha {
        bands - 1
    } else {
        bands
    };
    if colors != 3 {
        let head: String = text::joined(operation_name, " requires three color bands, got ");
        return Err(
            RenderError::Engine(
                text::joined(head.as_str(), text::decimal_string(colors as u64).as_str()),
            ),
        );
    }
    Ok(colors)
}

/// Tells whether an image that is shown is to be given an alpha band. An image
/// of neither three nor four bands cannot be shown.
pub fn ensure_rgba8(bands: u32) -> (result: Result<bool, RenderError>)
    ensures
        match result {
            Ok(add_alpha) => (bands == 3 || bands == 4) && add_alpha == (bands == 3),
            Err(RenderError::Engine(reason)) => {
                &&& bands != 3
                &&& bands != 4
                &&& reason@ == "expected an RGB or RGBA image after colour conversion, got "@
                    + text::decimal(bands as nat) + " bands"@
            },
            Err(_) => false,
        },
{
    if bands == 4 {
        Ok(false)
    } else if bands == 3 {
        Ok(true)
    } else {
        let head: String = text::joined(
            "expected an RGB or RGBA image after colour conversion, got ",
            text::decimal_string(bands as u64).as_str(),
        );
        Err(RenderError::Engine(text::joined(head.as_str(), " bands")))
    }
}

/// How many numbers the background has on which an image is laid for a form
/// without alpha; none where the image has no alpha itself.
pub fn flatten_for_jpeg(bands: u32, has_alpha: bool) -> (background: Option<u32>)
    ensures
        background == if !has_alpha {
            None
        } else if bands >= 2 {
            Some((bands - 1) as u32)
        } else {
            Some(1u32)
        },
{
    if !has_alpha {
        None
    } else if bands >= 2 {
        Some(bands - 1)
    } else {
        Some(1)
    }
}

} // verus!
