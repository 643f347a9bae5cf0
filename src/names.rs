//! Which names are images and which are archives, by extension.
use vstd::prelude::*;
use vstd::string::StrSliceExecFns;

use crate::text::{after_last, chars_of, last_index, lemma_last_index, same_text};

verus! {

/// What `str::to_lowercase` yields for a string.
pub uninterp spec fn str_lowercase(s: Seq<char>) -> Seq<char>;

/// Relies on `str::to_lowercase`: the lowercase form of `s`, which depends
/// on the characters of `s` alone.
#[verifier::external_body]
pub(crate) fn lowercase_str(s: &str) -> (r: String)
    ensures
        r@ == str_lowercase(s@),
{
    s.to_lowercase()
}

/// The last component of a `/`-separated name.
pub open spec fn final_component(name: Seq<char>) -> Seq<char> {
    name.skip(last_index(name, '/') + 1)
}

/// The extension of a name: what follows the last `.` of its last
/// component, where that `.` is not the component's first character.
pub open spec fn extension_of(name: Seq<char>) -> Option<Seq<char>> {
    let f = final_component(name);
    let d = last_index(f, '.');
    if d > 0 {
        Some(f.skip(d + 1))
    } else {
        None
    }
}

/// A lowercase extension of one of the recognised raster image types.
pub open spec fn is_image_ext(e: Seq<char>) -> bool {
    e == "jpg"@ || e == "jpeg"@ || e == "png"@ || e == "webp"@ || e == "gif"@
}

/// A lowercase extension of a comic archive.
pub open spec fn is_archive_ext(e: Seq<char>) -> bool {
    e == "cbz"@ || e == "zip"@
}

/// Whether a name is an image: its extension, lowercased, is an image type.
pub open spec fn is_image_name(name: Seq<char>) -> bool {
    match extension_of(name) {
        Some(e) => is_image_ext(str_lowercase(e)),
        None => false,
    }
}

/// Whether a name is a comic archive: its extension, lowercased, is `cbz` or `zip`.
pub open spec fn is_archive_name(name: Seq<char>) -> bool {
    match extension_of(name) {
        Some(e) => is_archive_ext(str_lowercase(e)),
        None => false,
    }
}

/// The extension of `name`, as `extension_of` describes it.
pub fn extension(name: &str) -> (r: Option<&str>)
    ensures
        r matches Some(e) ==> extension_of(name@) == Some(e@),
        r is None ==> extension_of(name@) is None,
{
    let cs = chars_of(name);
    let start = after_last(&cs, '/');
    proof {
        lemma_last_index(name@, '/');
    }
    let file = name.substring_char(start, cs.len());
    let fs = chars_of(file);
    let dot = after_last(&fs, '.');
    proof {
        lemma_last_index(file@, '.');
    }
    if dot > 1 {
        Some(file.substring_char(dot, fs.len()))
    } else {
        None
    }
}

/// Whether a lowercase extension is one of the image types.
pub fn is_image_extension(e: &str) -> (r: bool)
    ensures
        r == is_image_ext(e@),
{
    same_text(e, "jpg") || same_text(e, "jpeg") || same_text(e, "png") || same_text(e, "webp")
        || same_text(e, "gif")
}

/// Whether a lowercase extension is one of the archive types.
pub fn is_archive_extension(e: &str) -> (r: bool)
    ensures
        r == is_archive_ext(e@),
{
    same_text(e, "cbz") || same_text(e, "zip")
}

/// Whether `name` is an image file by its extension, in any letter case.
pub fn is_image_file(name: &str) -> (r: bool)
    ensures
        r == is_image_name(name@),
{
    match extension(name) {
        Some(e) => is_image_extension(lowercase_str(e).as_str()),
        None => false,
    }
}

/// Whether `name` is a comic archive by its extension, in any letter case.
pub fn is_archive_file(name: &str) -> (r: bool)
    ensures
        r == is_archive_name(name@),
{
    match extension(name) {
        Some(e) => is_archive_extension(lowercase_str(e).as_str()),
        None => false,
    }
}

} // verus!
