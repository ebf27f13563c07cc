//! Choosing what a save path writes: figure snapshots by image format, or a
//! curve's data as CSV.

use std::path::Path;
use vstd::prelude::*;
use crate::render::save::{SaveFormat, format_for_extension, eq_ascii_case_insensitive};
use crate::text::{ascii_lower, eq_ignore_ascii_case, has_char, push_char, push_str, string_of};

verus! {

/// What a chosen save path resolves to: a figure snapshot in an image
/// format, or the active curve's data as CSV.
#[derive(Clone, Copy, Debug, PartialEq, Eq)]
pub enum SaveTarget {
    /// Save the figure in the given format.
    Figure(SaveFormat),
    /// Save the active curve's `(x, y)` data as CSV.
    CurveCsv,
}

/// The target an extension names: `csv` (any ASCII case) is curve data,
/// an image extension is a figure, anything else is unknown.
pub open spec fn target_for_extension(ext: Seq<char>) -> Option<SaveTarget> {
    if eq_ignore_ascii_case(ext, "csv"@) {
        Some(SaveTarget::CurveCsv)
    } else {
        match format_for_extension(ext) {
            Some(f) => Some(SaveTarget::Figure(f)),
            None => None,
        }
    }
}

proof fn lemma_same_case_class(a: Seq<char>, b: Seq<char>, l: Seq<char>)
    requires
        eq_ignore_ascii_case(a, b),
    ensures
        eq_ignore_ascii_case(a, l) == eq_ignore_ascii_case(b, l),
{
    if eq_ignore_ascii_case(a, l) {
        assert forall|i: int| 0 <= i < b.len() implies ascii_lower(b[i]) == ascii_lower(l[i]) by {
            assert(ascii_lower(a[i]) == ascii_lower(b[i]));
        }
    }
    if eq_ignore_ascii_case(b, l) {
        assert forall|i: int| 0 <= i < a.len() implies ascii_lower(a[i]) == ascii_lower(l[i]) by {
            assert(ascii_lower(a[i]) == ascii_lower(b[i]));
        }
    }
}

/// Extensions that differ only in ASCII case name the same target.
pub proof fn lemma_extension_case_insensitive(a: Seq<char>, b: Seq<char>)
    requires
        eq_ignore_ascii_case(a, b),
    ensures
        target_for_extension(a) == target_for_extension(b),
{
    lemma_same_case_class(a, b, "csv"@);
    lemma_same_case_class(a, b, "png"@);
    lemma_same_case_class(a, b, "ppm"@);
    lemma_same_case_class(a, b, "svg"@);
    lemma_same_case_class(a, b, "tif"@);
    lemma_same_case_class(a, b, "tiff"@);
    lemma_same_case_class(a, b, "eps"@);
    lemma_same_case_class(a, b, "pdf"@);
    lemma_same_case_class(a, b, "jpg"@);
    lemma_same_case_class(a, b, "jpeg"@);
}

/// A path written only with `/` separators: no `\`, no `:`, and not
/// starting with `//`. Such a path has no prefix (drive, UNC share,
/// verbatim) and the same components on every platform.
pub open spec fn plain_path(p: Seq<char>) -> bool {
    &&& !has_char(p, '\\')
    &&& !has_char(p, ':')
    &&& !(p.len() >= 2 && p[0] == '/' && p[1] == '/')
}

/// A plain path without its trailing separators and trailing `.`
/// components, which never name the file.
pub open spec fn path_tail(p: Seq<char>) -> Seq<char>
    decreases p.len(),
{
    if p.len() > 0 && p.last() == '/' {
        path_tail(p.drop_last())
    } else if p.len() >= 2 && p.last() == '.' && p[p.len() - 2] == '/' {
        path_tail(p.drop_last())
    } else {
        p
    }
}

/// Index just past the last `/` of `p` (0 when there is none).
pub open spec fn after_last_slash(p: Seq<char>) -> int
    decreases p.len(),
{
    if p.len() == 0 {
        0
    } else if p.last() == '/' {
        p.len() as int
    } else {
        after_last_slash(p.drop_last())
    }
}

/// The file name of a plain path: its final component, unless that is
/// empty, `.` or `..`.
pub open spec fn plain_file_name(p: Seq<char>) -> Option<Seq<char>> {
    let t = path_tail(p);
    let name = t.skip(after_last_slash(t));
    if name.len() == 0 || name == "."@ || name == ".."@ {
        None
    } else {
        Some(name)
    }
}

/// Index of the last `.` in `s`, or -1.
pub open spec fn last_dot(s: Seq<char>) -> int
    decreases s.len(),
{
    if s.len() == 0 {
        -1
    } else if s.last() == '.' {
        s.len() - 1
    } else {
        last_dot(s.drop_last())
    }
}

/// The extension of a plain path as std documents it: the part of the
/// file name after its last `.`, none when the name has no `.` other than a
/// leading one, or when there is no file name.
pub open spec fn plain_extension(p: Seq<char>) -> Option<Seq<char>> {
    match plain_file_name(p) {
        Some(name) => {
            let d = last_dot(name);
            if d <= 0 {
                None
            } else {
                Some(name.skip(d + 1))
            }
        },
        None => None,
    }
}

/// `c` separates path components on some platform (`/` everywhere, `\`
/// on Windows).
pub open spec fn any_separator(c: char) -> bool {
    c == '/' || c == '\\'
}

/// The extension of a path whose file name ends in `.` and a non-empty
/// extension, on every platform: the text after the path's last `.`, when
/// that text holds no separator and no `:`, the `.` is not the first
/// character of its component (the character before it is no separator and
/// no `:`), and the path does not start with two separators (a share or
/// device prefix). `None` when the path is not of that shape.
pub open spec fn dotted_extension(p: Seq<char>) -> Option<Seq<char>> {
    let d = last_dot(p);
    let e = p.skip(d + 1);
    if d >= 1 && e.len() > 0 && (forall|j: int|
        0 <= j < e.len() ==> !any_separator(#[trigger] e[j]) && e[j] != ':') && !any_separator(
        p[d - 1],
    ) && p[d - 1] != ':' && !(p.len() >= 2 && any_separator(p[0]) && any_separator(p[1])) {
        Some(e)
    } else {
        None
    }
}

/// `e` stands in `path` right after a `.`.
pub open spec fn follows_a_dot(path: Seq<char>, e: Seq<char>) -> bool {
    exists|i: int|
        0 < i && i + e.len() <= path.len() && path[i - 1] == '.' && #[trigger] path.subrange(
            i,
            i + e.len(),
        ) == e
}

proof fn lemma_last_dot_props(s: Seq<char>)
    ensures
        -1 <= last_dot(s) < s.len(),
        last_dot(s) >= 0 ==> s[last_dot(s)] == '.',
        forall|j: int| last_dot(s) < j < s.len() ==> s[j] != '.',
    decreases s.len(),
{
    if s.len() > 0 && s.last() != '.' {
        lemma_last_dot_props(s.drop_last());
        assert forall|j: int| last_dot(s) < j < s.len() implies s[j] != '.' by {
            if j < s.len() - 1 {
                assert(s[j] == s.drop_last()[j]);
            }
        }
    }
}

proof fn lemma_last_dot_is(s: Seq<char>, d: int)
    requires
        0 <= d < s.len(),
        s[d] == '.',
        forall|j: int| d < j < s.len() ==> s[j] != '.',
    ensures
        last_dot(s) == d,
{
    lemma_last_dot_props(s);
}

proof fn lemma_after_last_slash_props(p: Seq<char>)
    ensures
        0 <= after_last_slash(p) <= p.len(),
        after_last_slash(p) > 0 ==> p[after_last_slash(p) - 1] == '/',
        forall|j: int| after_last_slash(p) <= j < p.len() ==> p[j] != '/',
    decreases p.len(),
{
    if p.len() > 0 && p.last() != '/' {
        lemma_after_last_slash_props(p.drop_last());
        assert forall|j: int| after_last_slash(p) <= j < p.len() implies p[j] != '/' by {
            if j < p.len() - 1 {
                assert(p[j] == p.drop_last()[j]);
            }
        }
    }
}

/// On a plain path, the extension taken from the file name agrees with the
/// dotted extension: both are the text after the path's last `.`.
pub proof fn lemma_dotted_agrees_with_plain(p: Seq<char>)
    requires
        plain_path(p),
        dotted_extension(p) is Some,
    ensures
        plain_extension(p) == dotted_extension(p),
{
    let d = last_dot(p);
    let e = p.skip(d + 1);
    lemma_last_dot_props(p);
    assert(e.len() > 0);
    assert(p.last() == e[e.len() - 1]);
    assert(p.last() != '/');
    assert(p.last() != '.');
    assert(path_tail(p) == p);
    lemma_after_last_slash_props(p);
    let a = after_last_slash(p);
    assert(a <= d - 1) by {
        if a > d - 1 {
            assert(p[a - 1] == '/');
            if a - 1 > d {
                assert(e[a - 1 - (d + 1)] == p[a - 1]);
            }
        }
    }
    let name = p.skip(a);
    assert(name[d - a] == '.');
    assert forall|j: int| d - a < j < name.len() implies name[j] != '.' by {
        assert(name[j] == p[j + a]);
    }
    lemma_last_dot_is(name, d - a);
    reveal_strlit(".");
    reveal_strlit("..");
    assert(name.len() >= 3);
    assert(name != "."@);
    assert(name != ".."@);
    assert(name.skip(d - a + 1) =~= e);
}

/// The extension of a path given as text: std's `Path::extension` of
/// `Path::new(path)`, as `&str`.
///
/// The contract states what std documents: every extension is a part of
/// the path right after a `.`, and holds no `.`; for a plain path (see
/// [`plain_path`]), whose components are the same on every platform, it is
/// exactly [`plain_extension`]; for a path whose file name ends in a
/// dotted extension it is that extension (see [`dotted_extension`]). For
/// the remaining paths (with `\`, `:` or a leading `//`) the separators and
/// prefixes depend on the platform, and which part is the extension is left
/// unsaid.
#[verifier::external_body]
fn path_extension(path: &str) -> (r: Option<&str>)
    ensures
        r matches Some(e) ==> !has_char(e@, '.') && follows_a_dot(path@, e@),
        plain_path(path@) ==> match plain_extension(path@) {
            Some(e) => r matches Some(re) && re@ == e,
            None => r is None,
        },
        match dotted_extension(path@) {
            Some(e) => r matches Some(re) && re@ == e,
            None => true,
        },
{
    match Path::new(path).extension() {
        Some(e) => e.to_str(),
        None => None,
    }
}

impl SaveTarget {
    /// Resolve a file extension (ASCII case-insensitive, no leading dot) to a
    /// save target: `csv` saves curve data, an image extension saves the
    /// figure; `None` for unknown extensions.
    pub fn from_extension(ext: &str) -> (r: Option<Self>)
        ensures
            r == target_for_extension(ext@),
    {
        if eq_ascii_case_insensitive(ext, "csv") {
            return Some(SaveTarget::CurveCsv);
        }
        match SaveFormat::from_extension(ext) {
            Some(f) => Some(SaveTarget::Figure(f)),
            None => None,
        }
    }

    /// Resolve a path's extension (std `Path::extension`) to a save target
    /// via [`Self::from_extension`]; `None` when the path has no extension.
    pub fn from_path(path: &str) -> (r: Option<Self>)
        ensures
            !has_char(path@, '.') ==> r is None,
            r matches Some(t) ==> exists|e: Seq<char>|
                !has_char(e, '.') && follows_a_dot(path@, e) && target_for_extension(e) == Some(t),
            plain_path(path@) ==> r == match plain_extension(path@) {
                Some(e) => target_for_extension(e),
                None => None,
            },
            match dotted_extension(path@) {
                Some(e) => r == target_for_extension(e),
                None => true,
            },
    {
        match path_extension(path) {
            Some(e) => Self::from_extension(e),
            None => None,
        }
    }
}

/// The shape of a tightly packed, row-major RGBA8 image for the clipboard:
/// `(width, height)` when the buffer holds exactly `width * height` pixels
/// of four bytes, else `None` (a malformed buffer is rejected before it
/// reaches the clipboard).
pub fn rgba_image_shape(rgba_len: usize, width: u32, height: u32) -> (r: Option<(usize, usize)>)
    ensures
        r == if rgba_len as int == width as int * height as int * 4 {
            Some((width as usize, height as usize))
        } else {
            None
        },
{
    let w = width as usize;
    let h = height as usize;
    let expected = match w.checked_mul(h) {
        Some(p) => p.checked_mul(4),
        None => None,
    };
    match expected {
        Some(e) => if e == rgba_len {
            Some((w, h))
        } else {
            None
        },
        None => None,
    }
}

/// How an error-bar set of a curve is stored, which decides its CSV
/// columns.
#[derive(Clone, Copy, Debug, PartialEq, Eq, Structural)]
pub enum ErrorShape {
    /// One error for every point: one broadcast column.
    Symmetric,
    /// One error per point: one column.
    PerPoint,
    /// Separate lower and upper errors per point: two columns.
    Asymmetric,
}

/// The CSV column labels of one error-bar set of the axis labelled `label`.
pub open spec fn error_labels(shape: ErrorShape, label: Seq<char>) -> Seq<Seq<char>> {
    match shape {
        ErrorShape::Asymmetric => seq![label + "_errors_below"@, label + "_errors_above"@],
        _ => seq![label + "_errors"@],
    }
}

/// The labels of the CSV columns after X: the Y values, then the X-error
/// column(s), then the Y-error column(s).
pub open spec fn column_labels(
    xlabel: Seq<char>,
    ylabel: Seq<char>,
    x_error: Option<ErrorShape>,
    y_error: Option<ErrorShape>,
) -> Seq<Seq<char>> {
    seq![ylabel] + match x_error {
        Some(e) => error_labels(e, xlabel),
        None => Seq::empty(),
    } + match y_error {
        Some(e) => error_labels(e, ylabel),
        None => Seq::empty(),
    }
}

/// Cells joined by commas.
pub open spec fn comma_joined(cells: Seq<Seq<char>>) -> Seq<char>
    decreases cells.len(),
{
    if cells.len() == 0 {
        Seq::empty()
    } else if cells.len() == 1 {
        cells[0]
    } else {
        comma_joined(cells.drop_last()) + ","@ + cells.last()
    }
}

/// One CSV line: the cells joined by commas, then a newline.
pub open spec fn csv_line_text(cells: Seq<Seq<char>>) -> Seq<char> {
    comma_joined(cells) + "\n"@
}

/// The number of CSV rows: the shortest of the X values and the per-point
/// columns (`None` marks a broadcast column, which fits any length).
pub open spec fn row_count(x_len: nat, lens: Seq<Option<usize>>) -> nat
    decreases lens.len(),
{
    if lens.len() == 0 {
        x_len
    } else {
        let r = row_count(x_len, lens.drop_last());
        match lens.last() {
            Some(n) => if (n as nat) < r {
                n as nat
            } else {
                r
            },
            None => r,
        }
    }
}

/// The labels of one error-bar set, appended to `labels`.
fn push_error_labels(labels: &mut Vec<String>, shape: ErrorShape, label: &str)
    ensures
        final(labels)@.map_values(|s: String| s@) == old(labels)@.map_values(|s: String| s@)
            + error_labels(shape, label@),
{
    let ghost before = labels@.map_values(|s: String| s@);
    match shape {
        ErrorShape::Asymmetric => {
            let mut below = string_of(label);
            push_str(&mut below, "_errors_below");
            let mut above = string_of(label);
            push_str(&mut above, "_errors_above");
            labels.push(below);
            labels.push(above);
        },
        _ => {
            let mut one = string_of(label);
            push_str(&mut one, "_errors");
            labels.push(one);
        },
    }
    assert(labels@.map_values(|s: String| s@) =~= before + error_labels(shape, label@));
}

/// The column labels after X, in CSV order (see [`column_labels`]).
pub fn csv_column_labels(
    xlabel: &str,
    ylabel: &str,
    x_error: Option<ErrorShape>,
    y_error: Option<ErrorShape>,
) -> (r: Vec<String>)
    ensures
        r@.map_values(|s: String| s@) == column_labels(xlabel@, ylabel@, x_error, y_error),
{
    let mut labels: Vec<String> = Vec::new();
    labels.push(string_of(ylabel));
    assert(labels@.map_values(|s: String| s@) =~= seq![ylabel@]);
    if let Some(e) = x_error {
        push_error_labels(&mut labels, e, xlabel);
    }
    assert(labels@.map_values(|s: String| s@) =~= seq![ylabel@] + match x_error {
        Some(e) => error_labels(e, xlabel@),
        None => Seq::empty(),
    });
    if let Some(e) = y_error {
        push_error_labels(&mut labels, e, ylabel);
    }
    assert(labels@.map_values(|s: String| s@) =~= column_labels(
        xlabel@,
        ylabel@,
        x_error,
        y_error,
    ));
    labels
}

/// One CSV line: the cells joined by commas, then a newline.
pub fn csv_line(cells: &[String]) -> (r: String)
    ensures
        r@ == csv_line_text(cells@.map_values(|s: String| s@)),
{
    let ghost cs = cells@.map_values(|s: String| s@);
    let mut out = String::new();
    let mut i: usize = 0;
    while i < cells.len()
        invariant
            cs == cells@.map_values(|s: String| s@),
            i <= cells@.len(),
            out@ == comma_joined(cs.take(i as int)),
        decreases cells@.len() - i,
    {
        if i > 0 {
            push_char(&mut out, ',');
        }
        push_str(&mut out, cells[i].as_str());
        proof {
            let t = cs.take(i + 1);
            assert(t.drop_last() =~= cs.take(i as int));
            assert(t.last() == cells@[i as int]@);
            reveal_strlit(",");
            assert(out@ =~= comma_joined(t));
        }
        i = i + 1;
    }
    push_char(&mut out, '\n');
    proof {
        reveal_strlit("\n");
        assert(cs.take(cells@.len() as int) =~= cs);
        assert(out@ =~= csv_line_text(cs));
    }
    out
}

/// The CSV header: the X label, then the other column labels.
pub fn csv_header(
    xlabel: &str,
    ylabel: &str,
    x_error: Option<ErrorShape>,
    y_error: Option<ErrorShape>,
) -> (r: String)
    ensures
        r@ == csv_line_text(seq![xlabel@] + column_labels(xlabel@, ylabel@, x_error, y_error)),
{
    let mut rest = csv_column_labels(xlabel, ylabel, x_error, y_error);
    let mut cells: Vec<String> = Vec::new();
    cells.push(string_of(xlabel));
    let ghost first = cells@;
    let ghost tail = rest@;
    cells.append(&mut rest);
    assert(cells@ =~= first + tail);
    assert(cells@.map_values(|s: String| s@) =~= seq![xlabel@] + tail.map_values(|s: String| s@));
    csv_line(cells.as_slice())
}

/// The number of CSV rows (see [`row_count`]).
pub fn csv_row_count(x_len: usize, lens: &[Option<usize>]) -> (r: usize)
    ensures
        r == row_count(x_len as nat, lens@),
{
    let mut r = x_len;
    let mut i: usize = 0;
    while i < lens.len()
        invariant
            i <= lens@.len(),
            r == row_count(x_len as nat, lens@.take(i as int)),
        decreases lens@.len() - i,
    {
        proof {
            assert(lens@.take(i + 1).drop_last() =~= lens@.take(i as int));
        }
        if let Some(n) = lens[i] {
            if n < r {
                r = n;
            }
        }
        i = i + 1;
    }
    assert(lens@.take(lens@.len() as int) =~= lens@);
    r
}

/// Why a PNG could not be turned into an RGBA8 image.
#[derive(Clone, Copy, Debug, PartialEq, Eq, Structural)]
pub enum PngDecodeError {
    /// The bytes are not a PNG the decoder can read.
    Format,
    /// The decoded frame would not fit in memory.
    SizeOverflow,
    /// The PNG decodes to something other than 8-bit RGBA.
    NotRgba8,
}

/// What the `png` crate decodes from `bytes` (the first frame): its width,
/// height, whether it is 8-bit RGBA, and the frame's bytes; or why it
/// could not decode it.
pub uninterp spec fn png_frame(bytes: Seq<u8>) -> Result<(u32, u32, bool, Seq<u8>), PngDecodeError>;

/// Decode the first frame of a PNG with the `png` crate: `Decoder::new`
/// over the bytes, `read_info`, `output_buffer_size` and `next_frame`, the
/// buffer cut to the frame's `buffer_size`. The contract only names the
/// result ([`png_frame`]): a decoding error is `Format`, a buffer size that
/// overflows is `SizeOverflow`; the flag tells whether the frame is 8-bit
/// RGBA (`ColorType::Rgba`, `BitDepth::Eight`).
#[verifier::external_body]
fn decode_png_frame(bytes: &[u8]) -> (r: Result<(u32, u32, bool, Vec<u8>), PngDecodeError>)
    ensures
        match r {
            Ok((w, h, rgba8, d)) => png_frame(bytes@) == Ok::<_, PngDecodeError>((w, h, rgba8, d@)),
            Err(e) => png_frame(bytes@) == Err::<(u32, u32, bool, Seq<u8>), _>(e),
        },
{
    let Ok(mut reader) = png::Decoder::new(std::io::Cursor::new(bytes)).read_info() else {
        return Err(PngDecodeError::Format);
    };
    let Some(size) = reader.output_buffer_size() else {
        return Err(PngDecodeError::SizeOverflow);
    };
    let mut buf = vec![0u8; size];
    let Ok(info) = reader.next_frame(&mut buf) else {
        return Err(PngDecodeError::Format);
    };
    let rgba8 = matches!((info.color_type, info.bit_depth), (png::ColorType::Rgba, png::BitDepth::Eight));
    buf.truncate(info.buffer_size());
    Ok((info.width, info.height, rgba8, buf))
}

/// The image of a decoded frame: `(width, height, rgba)` when the frame is
/// 8-bit RGBA, else [`PngDecodeError::NotRgba8`]; a decoding failure is
/// passed on.
pub fn rgba8_image(frame: Result<(u32, u32, bool, Vec<u8>), PngDecodeError>) -> (r: Result<
    (u32, u32, Vec<u8>),
    PngDecodeError,
>)
    ensures
        match frame {
            Ok((w, h, true, d)) => r matches Ok((rw, rh, rd)) && rw == w && rh == h && rd@ == d@,
            Ok((_, _, false, _)) => r == Err::<(u32, u32, Vec<u8>), _>(PngDecodeError::NotRgba8),
            Err(e) => r == Err::<(u32, u32, Vec<u8>), _>(e),
        },
{
    match frame {
        Ok((w, h, rgba8, d)) => if rgba8 {
            Ok((w, h, d))
        } else {
            Err(PngDecodeError::NotRgba8)
        },
        Err(e) => Err(e),
    }
}

/// Decode an 8-bit RGBA PNG into a tightly packed, row-major RGBA8 buffer,
/// returning `(width, height, rgba)`; any other PNG is refused with
/// [`PngDecodeError::NotRgba8`].
pub fn decode_png_to_rgba(png_bytes: &[u8]) -> (r: Result<(u32, u32, Vec<u8>), PngDecodeError>)
    ensures
        match png_frame(png_bytes@) {
            Ok((w, h, true, d)) => r matches Ok((rw, rh, rd)) && rw == w && rh == h && rd@ == d,
            Ok((_, _, false, _)) => r == Err::<(u32, u32, Vec<u8>), _>(PngDecodeError::NotRgba8),
            Err(e) => r == Err::<(u32, u32, Vec<u8>), _>(e),
        },
{
    rgba8_image(decode_png_frame(png_bytes))
}

} // verus!
