//! Titles and axis labels of image profiles: the integration band of an
//! aligned profile, the title templates with `{xlabel}`/`{ylabel}` tokens,
//! and filling those tokens from the source plot's labels.

use vstd::prelude::*;
use crate::widget::high_level::ProfileMethod;
use crate::text::{
    contains_char, decimal, has_char, push_decimal, push_str, replace, replace_all, string_of,
    trim_end, trimmed_end_len,
};

verus! {

/// The self-describing labels of a profile plot.
#[derive(Clone, Debug, PartialEq)]
pub struct ProfileLabels {
    /// Profile-plot title.
    pub title: String,
    /// Profile X-axis label.
    pub x_label: String,
    /// Profile Y-axis label.
    pub y_label: String,
}

/// `s` without trailing zeros and then without trailing dots, when it holds
/// a dot; unchanged otherwise.
pub open spec fn stripped_zeros(s: Seq<char>) -> Seq<char> {
    if has_char(s, '.') {
        trim_end(trim_end(s, '0'), '.')
    } else {
        s
    }
}

/// Drop trailing zeros (and then trailing dots) from a fixed-point number;
/// a string without a dot is returned unchanged.
pub fn strip_trailing_zeros(s: &str) -> (r: String)
    ensures
        r@ == stripped_zeros(s@),
{
    if contains_char(s, '.') {
        let n = s.unicode_len();
        let k = trimmed_end_len(s, n, '0');
        assert(s@.take(n as int) =~= s@);
        let k2 = trimmed_end_len(s, k, '.');
        let t = s.substring_char(0, k2);
        t.to_owned()
    } else {
        string_of(s)
    }
}

/// The label a token falls back to: the given label, or `fallback` when
/// empty.
pub open spec fn label_or(label: Seq<char>, fallback: Seq<char>) -> Seq<char> {
    if label.len() == 0 {
        fallback
    } else {
        label
    }
}

/// `template` with `{xlabel}` then `{ylabel}` filled.
pub open spec fn relabeled(template: Seq<char>, x_label: Seq<char>, y_label: Seq<char>) -> Seq<
    char,
> {
    replace_all(
        replace_all(template, "{xlabel}"@, label_or(x_label, "X"@)),
        "{ylabel}"@,
        label_or(y_label, "Y"@),
    )
}

/// Fill `{xlabel}`/`{ylabel}` tokens with the source plot's axis labels,
/// falling back to `"X"`/`"Y"` when a label is empty.
pub fn relabel(template: &str, x_label: &str, y_label: &str) -> (r: String)
    ensures
        r@ == relabeled(template@, x_label@, y_label@),
{
    let xl = if x_label.unicode_len() == 0 {
        "X"
    } else {
        x_label
    };
    let yl = if y_label.unicode_len() == 0 {
        "Y"
    } else {
        y_label
    };
    proof {
        reveal_strlit("{xlabel}");
        reveal_strlit("{ylabel}");
    }
    let step = replace(template, "{xlabel}", xl);
    replace(step.as_str(), "{ylabel}", yl)
}

/// The Y-axis label of a profile plot: the reduction method's name.
pub fn method_label(method: ProfileMethod) -> (r: &'static str)
    ensures
        r@ == match method {
            ProfileMethod::Mean => "Mean"@,
            ProfileMethod::Sum => "Sum"@,
        },
{
    match method {
        ProfileMethod::Mean => "Mean",
        ProfileMethod::Sum => "Sum",
    }
}

/// Integer division by two truncating toward zero.
pub open spec fn half_toward_zero(t: int) -> int {
    if t >= 0 {
        t / 2
    } else {
        -((-t) / 2)
    }
}

/// The integration band `(lo, hi)` of a whole-image aligned profile through
/// the (truncated) position `pos` on an axis of `size` pixels, `line_width`
/// pixels wide: the band is `roi_width = min(max(line_width, 1), max(size,
/// 1))` pixels starting at `trunc(pos + 0.5 - roi_width / 2)`, clamped into
/// the axis.
pub open spec fn band(pos: int, size: nat, line_width: nat) -> (int, int) {
    let lw: int = if line_width < 1 {
        1
    } else {
        line_width as int
    };
    let sz: int = if size < 1 {
        1
    } else {
        size as int
    };
    let w = if lw < sz {
        lw
    } else {
        sz
    };
    let start0 = half_toward_zero(2 * pos + 1 - w);
    let hi_start = if size as int - w > 0 {
        size as int - w
    } else {
        0
    };
    let start = if start0 < 0 {
        0
    } else if start0 > hi_start {
        hi_start
    } else {
        start0
    };
    (start, start + w - 1)
}

/// The integration band of an aligned profile at the truncated position
/// `pos` (see [`band`]).
pub fn aligned_band(pos: i64, size: u32, line_width: u32) -> (r: (i64, i64))
    ensures
        r.0 as int == band(pos as int, size as nat, line_width as nat).0,
        r.1 as int == band(pos as int, size as nat, line_width as nat).1,
        0 <= r.0 <= r.1,
        r.1 < size || (size == 0 && r.1 == 0),
{
    let lw: i128 = if line_width < 1 { 1 } else { line_width as i128 };
    let sz: i128 = if size < 1 { 1 } else { size as i128 };
    let w: i128 = if lw < sz { lw } else { sz };
    let t: i128 = 2 * (pos as i128) + 1 - w;
    let start0: i128 = t / 2;
    assert(start0 == half_toward_zero(t as int));
    let hi_start: i128 = if (size as i128) - w > 0 { (size as i128) - w } else { 0 };
    let start: i128 = if start0 < 0 {
        0
    } else if start0 > hi_start {
        hi_start
    } else {
        start0
    };
    ((start as i64), ((start + w - 1) as i64))
}

/// The title of an aligned profile: `"{tok} = lo"` for a one-pixel band,
/// `"{tok} = [lo, hi]"` otherwise.
pub open spec fn band_title(token: Seq<char>, lo: int, hi: int, line_width: nat) -> Seq<char> {
    if line_width <= 1 {
        token + " = "@ + decimal(lo)
    } else {
        token + " = ["@ + decimal(lo) + ", "@ + decimal(hi) + "]"@
    }
}

/// Title and X-label templates of a whole-image aligned profile: a
/// horizontal profile (a row band, plotted along X) or a vertical one (a
/// column band, plotted along Y), at the truncated position `pos` on an axis
/// of `size` pixels.
pub fn aligned_profile_desc(horizontal: bool, pos: i64, size: u32, line_width: u32) -> (r: (
    String,
    String,
))
    ensures
        ({
            let b = band(pos as int, size as nat, line_width as nat);
            let (tok, other) = if horizontal {
                ("{ylabel}"@, "{xlabel}"@)
            } else {
                ("{xlabel}"@, "{ylabel}"@)
            };
            &&& r.0@ == band_title(tok, b.0, b.1, line_width as nat)
            &&& r.1@ == other
        }),
{
    let (lo, hi) = aligned_band(pos, size, line_width);
    let (tok, other) = if horizontal {
        ("{ylabel}", "{xlabel}")
    } else {
        ("{xlabel}", "{ylabel}")
    };
    let mut title = string_of(tok);
    if line_width <= 1 {
        push_str(&mut title, " = ");
        push_decimal(&mut title, lo);
    } else {
        push_str(&mut title, " = [");
        push_decimal(&mut title, lo);
        push_str(&mut title, ", ");
        push_decimal(&mut title, hi);
        push_str(&mut title, "]");
    }
    (title, string_of(other))
}

/// Title and X-label templates of a free line whose truncated endpoints
/// `(col, row)` share a row or a column, with endpoints ordered so the
/// title reads low to high; `None` for a diagonal line.
pub open spec fn aligned_line(sc: int, sr: int, ec: int, er: int) -> Option<(Seq<char>, Seq<char>)> {
    if !(sr == er || sc == ec) {
        None
    } else {
        let swap = sr > er || sc > ec;
        let (r0, c0, r1, c1) = if swap {
            (er, ec, sr, sc)
        } else {
            (sr, sc, er, ec)
        };
        if c0 == c1 {
            Some(
                (
                    "{xlabel} = "@ + decimal(c0) + "; {ylabel} = ["@ + decimal(r0) + ", "@
                        + decimal(r1) + "]"@,
                    "{ylabel}"@,
                ),
            )
        } else {
            Some(
                (
                    "{ylabel} = "@ + decimal(r0) + "; {xlabel} = ["@ + decimal(c0) + ", "@
                        + decimal(c1) + "]"@,
                    "{xlabel}"@,
                ),
            )
        }
    }
}

/// The aligned case of a free-line profile description (see
/// [`aligned_line`]): endpoints `(sc, sr)` and `(ec, er)` are truncated
/// pixel coordinates `(col, row)`.
pub fn aligned_line_desc(sc: i64, sr: i64, ec: i64, er: i64) -> (r: Option<(String, String)>)
    ensures
        match aligned_line(sc as int, sr as int, ec as int, er as int) {
            Some((t, x)) => r matches Some((rt, rx)) && rt@ == t && rx@ == x,
            None => r is None,
        },
{
    if !(sr == er || sc == ec) {
        return None;
    }
    let mut s = (sr, sc);
    let mut e = (er, ec);
    if s.0 > e.0 || s.1 > e.1 {
        let tmp = s;
        s = e;
        e = tmp;
    }
    let (x0, y0, x1, y1) = (s.1, s.0, e.1, e.0);
    if s.1 == e.1 {
        let mut t = string_of("{xlabel} = ");
        push_decimal(&mut t, x0);
        push_str(&mut t, "; {ylabel} = [");
        push_decimal(&mut t, y0);
        push_str(&mut t, ", ");
        push_decimal(&mut t, y1);
        push_str(&mut t, "]");
        Some((t, string_of("{ylabel}")))
    } else {
        let mut t = string_of("{ylabel} = ");
        push_decimal(&mut t, y0);
        push_str(&mut t, "; {xlabel} = [");
        push_decimal(&mut t, x0);
        push_str(&mut t, ", ");
        push_decimal(&mut t, x1);
        push_str(&mut t, "]");
        Some((t, string_of("{xlabel}")))
    }
}

/// The band of an aligned profile always lies inside the image, and is
/// `min(max(line_width, 1), size)` pixels wide.
pub proof fn lemma_band_inside(pos: int, size: nat, line_width: nat)
    requires
        size >= 1,
    ensures
        0 <= band(pos, size, line_width).0 <= band(pos, size, line_width).1 < size,
        band(pos, size, line_width).1 - band(pos, size, line_width).0 + 1 == if line_width < 1 {
            1
        } else if line_width < size {
            line_width as int
        } else {
            size as int
        },
{
}

/// An aligned line's title does not depend on the direction it was drawn.
pub proof fn lemma_aligned_line_symmetric(sc: int, sr: int, ec: int, er: int)
    ensures
        aligned_line(sc, sr, ec, er) == aligned_line(ec, er, sc, sr),
{
}

impl Default for ProfileLabels {
    /// Empty title and axis labels.
    fn default() -> (l: Self)
        ensures
            l.title@ == Seq::<char>::empty(),
            l.x_label@ == Seq::<char>::empty(),
            l.y_label@ == Seq::<char>::empty(),
    {
        ProfileLabels { title: String::new(), x_label: String::new(), y_label: String::new() }
    }
}

} // verus!
