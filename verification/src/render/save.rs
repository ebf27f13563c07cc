//! Figure file formats and the file extensions that name them.

use vstd::prelude::*;
use crate::text::{ascii_lower, eq_ignore_ascii_case};

verus! {

/// Figure file formats.
#[derive(Clone, Copy, Debug, PartialEq, Eq, Structural)]
pub enum SaveFormat {
    /// PNG raster image.
    Png,
    /// Portable pixmap.
    Ppm,
    /// SVG document.
    Svg,
    /// TIFF raster image.
    Tiff,
    /// Encapsulated PostScript.
    Eps,
    /// PDF document.
    Pdf,
    /// Baseline JPEG.
    Jpeg,
}

/// The format an extension names (ASCII case-insensitive): `png`, `ppm`,
/// `svg`, `tif`/`tiff`, `eps`, `pdf`, `jpg`/`jpeg`.
pub open spec fn format_for_extension(ext: Seq<char>) -> Option<SaveFormat> {
    if eq_ignore_ascii_case(ext, "png"@) {
        Some(SaveFormat::Png)
    } else if eq_ignore_ascii_case(ext, "ppm"@) {
        Some(SaveFormat::Ppm)
    } else if eq_ignore_ascii_case(ext, "svg"@) {
        Some(SaveFormat::Svg)
    } else if eq_ignore_ascii_case(ext, "tif"@) || eq_ignore_ascii_case(ext, "tiff"@) {
        Some(SaveFormat::Tiff)
    } else if eq_ignore_ascii_case(ext, "eps"@) {
        Some(SaveFormat::Eps)
    } else if eq_ignore_ascii_case(ext, "pdf"@) {
        Some(SaveFormat::Pdf)
    } else if eq_ignore_ascii_case(ext, "jpg"@) || eq_ignore_ascii_case(ext, "jpeg"@) {
        Some(SaveFormat::Jpeg)
    } else {
        None
    }
}

/// ASCII lowercase of one character.
pub fn to_ascii_lower(c: char) -> (r: char)
    ensures
        r == ascii_lower(c),
{
    if 'A' <= c && c <= 'Z' {
        let u: u32 = c as u32;
        ((u + 32) as u8) as char
    } else {
        c
    }
}

/// ASCII case-insensitive comparison of two strings.
pub fn eq_ascii_case_insensitive(a: &str, b: &str) -> (r: bool)
    ensures
        r == eq_ignore_ascii_case(a@, b@),
{
    let n = a.unicode_len();
    if n != b.unicode_len() {
        return false;
    }
    let mut i: usize = 0;
    while i < n
        invariant
            n == a@.len(),
            n == b@.len(),
            i <= n,
            forall|j: int| 0 <= j < i ==> ascii_lower(a@[j]) == ascii_lower(b@[j]),
        decreases n - i,
    {
        if to_ascii_lower(a.get_char(i)) != to_ascii_lower(b.get_char(i)) {
            return false;
        }
        i = i + 1;
    }
    true
}

impl SaveFormat {
    /// Resolve a file extension (ASCII case-insensitive, no leading dot) to
    /// a format; `None` for an unknown extension.
    pub fn from_extension(ext: &str) -> (r: Option<SaveFormat>)
        ensures
            r == format_for_extension(ext@),
    {
        if eq_ascii_case_insensitive(ext, "png") {
            Some(SaveFormat::Png)
        } else if eq_ascii_case_insensitive(ext, "ppm") {
            Some(SaveFormat::Ppm)
        } else if eq_ascii_case_insensitive(ext, "svg") {
            Some(SaveFormat::Svg)
        } else if eq_ascii_case_insensitive(ext, "tif") || eq_ascii_case_insensitive(ext, "tiff") {
            Some(SaveFormat::Tiff)
        } else if eq_ascii_case_insensitive(ext, "eps") {
            Some(SaveFormat::Eps)
        } else if eq_ascii_case_insensitive(ext, "pdf") {
            Some(SaveFormat::Pdf)
        } else if eq_ascii_case_insensitive(ext, "jpg") || eq_ascii_case_insensitive(ext, "jpeg") {
            Some(SaveFormat::Jpeg)
        } else {
            None
        }
    }
}

} // verus!
