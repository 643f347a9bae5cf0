//! Decoding images to RGBA pixels.
use vstd::prelude::*;

use crate::archive::{member_bytes, zip_member_bytes};
use crate::names::{extension, extension_of, lowercase_str, str_lowercase};
use crate::nav::Failure;
use crate::text::same_text;

verus! {

#[verifier::external_type_specification]
#[verifier::external_body]
pub struct ExImageError(image::ImageError);

/// The raster formats the viewer decodes.
#[derive(PartialEq, Eq, Structural, Clone, Copy, Debug)]
pub enum PictureFormat {
    /// JPEG, named by `jpg` or `jpeg`.
    Jpeg,
    /// PNG, named by `png`.
    Png,
    /// WebP, named by `webp`.
    WebP,
    /// GIF, named by `gif`.
    Gif,
}

/// A decoded image: 8-bit RGBA pixels, row by row.
pub struct Picture {
    /// Width in pixels.
    pub width: u32,
    /// Height in pixels.
    pub height: u32,
    /// Four bytes per pixel: red, green, blue, alpha.
    pub rgba: Vec<u8>,
}

/// What `image::load_from_memory_with_format` followed by `to_rgba8` gives
/// for the bytes read as the given format: width, height and pixels, or
/// `None` where decoding fails.
pub uninterp spec fn decoded_as(bytes: Seq<u8>, format: PictureFormat) -> Option<(u32, u32, Seq<u8>)>;

/// What `image::load_from_memory` followed by `to_rgba8` gives for the
/// bytes, their format guessed from their content.
pub uninterp spec fn decoded_guessing(bytes: Seq<u8>) -> Option<(u32, u32, Seq<u8>)>;

/// Relies on `image::load_from_memory_with_format` and
/// `DynamicImage::to_rgba8`: the decoded pixels depend on the bytes and the
/// format alone.
#[verifier::external_body]
fn decode_with_format(bytes: &[u8], format: PictureFormat) -> (r: Result<Picture, image::ImageError>)
    ensures
        r matches Ok(p) ==> decoded_as(bytes@, format) == Some((p.width, p.height, p.rgba@)),
        r is Err ==> decoded_as(bytes@, format) is None,
{
    let format = match format {
        PictureFormat::Jpeg => image::ImageFormat::Jpeg,
        PictureFormat::Png => image::ImageFormat::Png,
        PictureFormat::WebP => image::ImageFormat::WebP,
        PictureFormat::Gif => image::ImageFormat::Gif,
    };
    let img = image::load_from_memory_with_format(bytes, format)?.to_rgba8();
    Ok(Picture { width: img.width(), height: img.height(), rgba: img.into_raw() })
}

/// Relies on `image::load_from_memory` and `DynamicImage::to_rgba8`: the
/// decoded pixels depend on the bytes alone.
#[verifier::external_body]
fn decode_guessing(bytes: &[u8]) -> (r: Result<Picture, image::ImageError>)
    ensures
        r matches Ok(p) ==> decoded_guessing(bytes@) == Some((p.width, p.height, p.rgba@)),
        r is Err ==> decoded_guessing(bytes@) is None,
{
    let img = image::load_from_memory(bytes)?.to_rgba8();
    Ok(Picture { width: img.width(), height: img.height(), rgba: img.into_raw() })
}

/// The format a lowercase extension names.
pub open spec fn format_of_ext(e: Seq<char>) -> Option<PictureFormat> {
    if e == "jpg"@ || e == "jpeg"@ {
        Some(PictureFormat::Jpeg)
    } else if e == "png"@ {
        Some(PictureFormat::Png)
    } else if e == "webp"@ {
        Some(PictureFormat::WebP)
    } else if e == "gif"@ {
        Some(PictureFormat::Gif)
    } else {
        None
    }
}

/// The format a name's extension names, in any letter case.
pub open spec fn format_of_name(name: Seq<char>) -> Option<PictureFormat> {
    match extension_of(name) {
        Some(e) => format_of_ext(str_lowercase(e)),
        None => None,
    }
}

/// The format that the extension of `name` names, in any letter case.
pub fn format_for(name: &str) -> (r: Option<PictureFormat>)
    ensures
        r == format_of_name(name@),
{
    match extension(name) {
        None => None,
        Some(e) => format_of_extension(lowercase_str(e).as_str()),
    }
}

/// The format that a lowercase extension names.
pub fn format_of_extension(e: &str) -> (r: Option<PictureFormat>)
    ensures
        r == format_of_ext(e@),
{
    if same_text(e, "jpg") || same_text(e, "jpeg") {
        Some(PictureFormat::Jpeg)
    } else if same_text(e, "png") {
        Some(PictureFormat::Png)
    } else if same_text(e, "webp") {
        Some(PictureFormat::WebP)
    } else if same_text(e, "gif") {
        Some(PictureFormat::Gif)
    } else {
        None
    }
}

/// Decodes bytes as the given format.
pub fn decode_as(bytes: &[u8], format: PictureFormat) -> (r: Result<Picture, Failure>)
    ensures
        match decoded_as(bytes@, format) {
            Some(t) => r matches Ok(p) && (p.width, p.height, p.rgba@) == t,
            None => r matches Err(f) && f == Failure::DecodeFailed,
        },
{
    match decode_with_format(bytes, format) {
        Ok(p) => Ok(p),
        Err(_) => Err(Failure::DecodeFailed),
    }
}

/// Decodes the bytes of an archive member named `name`, in the format that
/// its extension names in any letter case; `UnsupportedFormat` where it names none.
pub fn decode_member(name: &str, bytes: &[u8]) -> (r: Result<Picture, Failure>)
    ensures
        match format_of_name(name@) {
            None => r matches Err(f) && f == Failure::UnsupportedFormat,
            Some(format) => match decoded_as(bytes@, format) {
                Some(t) => r matches Ok(p) && (p.width, p.height, p.rgba@) == t,
                None => r matches Err(f) && f == Failure::DecodeFailed,
            },
        },
{
    match format_for(name) {
        None => Err(Failure::UnsupportedFormat),
        Some(format) => decode_as(bytes, format),
    }
}

/// Decodes the bytes of an image file, its format guessed from its content.
pub fn decode_file(bytes: &[u8]) -> (r: Result<Picture, Failure>)
    ensures
        match decoded_guessing(bytes@) {
            Some(t) => r matches Ok(p) && (p.width, p.height, p.rgba@) == t,
            None => r matches Err(f) && f == Failure::DecodeFailed,
        },
{
    match decode_guessing(bytes) {
        Ok(p) => Ok(p),
        Err(_) => Err(Failure::DecodeFailed),
    }
}

/// Loads the member `name` of an archive: reads its bytes (`Unreadable`
/// where that fails), then decodes them as `decode_member` does.
pub fn load_member(archive: &[u8], name: &str) -> (r: Result<Picture, Failure>)
    ensures
        match zip_member_bytes(archive@, name@) {
            None => r matches Err(f) && f == Failure::Unreadable,
            Some(bytes) => match format_of_name(name@) {
                None => r matches Err(f) && f == Failure::UnsupportedFormat,
                Some(format) => match decoded_as(bytes, format) {
                    Some(t) => r matches Ok(p) && (p.width, p.height, p.rgba@) == t,
                    None => r matches Err(f) && f == Failure::DecodeFailed,
                },
            },
        },
{
    match member_bytes(archive, name) {
        Err(f) => Err(f),
        Ok(bytes) => decode_member(name, bytes.as_slice()),
    }
}

} // verus!
