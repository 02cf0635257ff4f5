//! Which decoder loads an image, from its path and probed size.
use vstd::prelude::*;
use crate::formats::has_extension;
use crate::large_image::spec_should_decode_large_image;

verus! {

/// The largest animation frame decoded whole, in bytes.
pub const MAX_ANIMATION_FRAME_BYTES: u64 = 50331648;

/// The bytes of a `width` by `height` image of four-byte pixels, saturated
/// at the largest `u64`.
pub open spec fn pixel_bytes(width: u32, height: u32) -> int {
    let bytes = width as int * height as int * 4;
    if bytes > u64::MAX as int {
        u64::MAX as int
    } else {
        bytes
    }
}

/// The saturated byte size of a `width` by `height` image.
fn pixel_bytes_exec(width: u32, height: u32) -> (result: u64)
    ensures
        result as int == pixel_bytes(width, height),
{
    assert(width as int * height as int <= 0xffff_ffff * 0xffff_ffff) by (nonlinear_arith)
        requires width <= 0xffff_ffff, height <= 0xffff_ffff;
    let pixels: u64 = width as u64 * height as u64;
    match pixels.checked_mul(4) {
        Some(bytes) => bytes,
        None => u64::MAX,
    }
}

/// How an image is decoded.
#[derive(Debug, Clone, Copy, PartialEq, Eq, Structural)]
pub enum DecodeRoute {
    /// By tiles, from a downsampled preview.
    LargeImage,
    /// Through the Photoshop decoder plugin.
    Photoshop,
    /// By the HEIF decoder, in full only when the image fits the budget.
    Heif { allow_full: bool },
    /// As an animation.
    Gif,
    /// Rendered from the path; nothing to decode.
    Svg,
    /// As a still image.
    Static,
}

/// The route for the image at `path` with probed size `dimensions`: by
/// tiles when the tiling policy asks for it (and the format allows) or for
/// a GIF whose frames exceed 48 MiB; else Photoshop files through their
/// plugin; else HEIF, in full when the size is unknown or fits
/// `max_output_bytes`; else GIF, SVG, or a still image.
pub open spec fn spec_decode_route(
    path: Seq<char>,
    dimensions: Option<(u32, u32)>,
    requires_tiling: bool,
    photoshop: bool,
    max_output_bytes: u64,
) -> DecodeRoute {
    let gif = has_extension(path, "gif"@);
    let large = match dimensions {
        Some((w, h)) => spec_should_decode_large_image(path, requires_tiling) || (gif && pixel_bytes(w, h)
            > MAX_ANIMATION_FRAME_BYTES),
        None => false,
    };
    if large {
        DecodeRoute::LargeImage
    } else if photoshop {
        DecodeRoute::Photoshop
    } else if has_extension(path, "heic"@) || has_extension(path, "heif"@) {
        DecodeRoute::Heif {
            allow_full: match dimensions {
                Some((w, h)) => pixel_bytes(w, h) <= max_output_bytes,
                None => true,
            },
        }
    } else if gif {
        DecodeRoute::Gif
    } else if has_extension(path, "svg"@) {
        DecodeRoute::Svg
    } else {
        DecodeRoute::Static
    }
}

/// Chooses how to decode the image at `path`; `requires_tiling` is the
/// tiling policy's verdict on its size and `photoshop` whether it is a
/// Photoshop file.
pub fn decode_route(
    path: &str,
    dimensions: Option<(u32, u32)>,
    requires_tiling: bool,
    photoshop: bool,
    max_output_bytes: u64,
) -> (result: DecodeRoute)
    ensures
        result == spec_decode_route(path@, dimensions, requires_tiling, photoshop, max_output_bytes),
{
    let gif = crate::formats::is_gif(path);
    let large = match dimensions {
        Some((w, h)) => crate::large_image::should_decode_large_image(path, requires_tiling) || (gif
            && pixel_bytes_exec(w, h) > MAX_ANIMATION_FRAME_BYTES),
        None => false,
    };
    if large {
        DecodeRoute::LargeImage
    } else if photoshop {
        DecodeRoute::Photoshop
    } else if crate::formats::is_heif(path) {
        DecodeRoute::Heif {
            allow_full: match dimensions {
                Some((w, h)) => pixel_bytes_exec(w, h) <= max_output_bytes,
                None => true,
            },
        }
    } else if gif {
        DecodeRoute::Gif
    } else if crate::formats::is_svg(path) {
        DecodeRoute::Svg
    } else {
        DecodeRoute::Static
    }
}

} // verus!
