//! Recognition of image kinds from the extension of a file path.
use vstd::prelude::*;
use crate::text::{chars_equal_ignore_case, chars_of, eq_ignore_case, extension, extension_exec};

verus! {

/// The extension of `path` equals `expected` up to ASCII case.
pub open spec fn has_extension(path: Seq<char>, expected: Seq<char>) -> bool {
    match extension(path, false) {
        Some(found) => eq_ignore_case(found, expected),
        None => false,
    }
}

/// Whether the extension of `path` equals `expected` up to ASCII case.
pub fn extension_is(path: &str, expected: &str) -> (result: bool)
    ensures
        result == has_extension(path@, expected@),
{
    let chars = chars_of(path);
    let wanted = chars_of(expected);
    match extension_exec(&chars, false) {
        Some(found) => chars_equal_ignore_case(&found, &wanted),
        None => false,
    }
}

/// Whether `path` names a HEIF image (`.heic` or `.heif`, any case).
pub fn is_heif(path: &str) -> (result: bool)
    ensures
        result == (has_extension(path@, "heic"@) || has_extension(path@, "heif"@)),
{
    extension_is(path, "heic") || extension_is(path, "heif")
}

/// Whether `path` names a GIF image (`.gif`, any case).
pub fn is_gif(path: &str) -> (result: bool)
    ensures
        result == has_extension(path@, "gif"@),
{
    extension_is(path, "gif")
}

/// Whether `path` names an SVG image (`.svg`, any case); such images are
/// rendered from the path instead of being decoded to pixels.
pub fn is_svg(path: &str) -> (result: bool)
    ensures
        result == has_extension(path@, "svg"@),
{
    extension_is(path, "svg")
}

/// Whether `path` names a JPEG image (`.jpg` or `.jpeg`, any case).
pub fn is_jpeg_path(path: &str) -> (result: bool)
    ensures
        result == (has_extension(path@, "jpg"@) || has_extension(path@, "jpeg"@)),
{
    extension_is(path, "jpg") || extension_is(path, "jpeg")
}

} // verus!
