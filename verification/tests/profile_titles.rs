use siplot::widget::high_level::ProfileMethod;
use siplot::widget::profile_window::{
    aligned_band, aligned_line_desc, aligned_profile_desc, method_label, relabel,
    strip_trailing_zeros,
};

/// The title pair of a horizontal-range profile over `(y0, y1)`: the band is
/// centred on the range's midpoint, truncated to a pixel row.
fn hrange(y: (f64, f64), height: u32, line_width: u32) -> (String, String) {
    let pos = ((y.0 + y.1) / 2.0).trunc() as i64;
    aligned_profile_desc(true, pos, height, line_width)
}

fn vrange(x: (f64, f64), width: u32, line_width: u32) -> (String, String) {
    let pos = ((x.0 + x.1) / 2.0).trunc() as i64;
    aligned_profile_desc(false, pos, width, line_width)
}

#[test]
fn relabel_fills_tokens_and_falls_back_to_x_y() {
    assert_eq!(
        relabel("{ylabel} = 1; {xlabel} = [0, 5]", "Columns", "Rows"),
        "Rows = 1; Columns = [0, 5]"
    );
    assert_eq!(relabel("{xlabel} vs {ylabel}", "", ""), "X vs Y");
}

#[test]
fn hrange_title_is_the_band_row_and_widens_with_line_width() {
    assert_eq!(
        hrange((1.0, 1.0), 3, 1),
        ("{ylabel} = 1".to_string(), "{xlabel}".to_string())
    );
    assert_eq!(
        hrange((1.0, 1.0), 3, 3),
        ("{ylabel} = [0, 2]".to_string(), "{xlabel}".to_string())
    );
}

#[test]
fn vrange_title_is_the_band_column() {
    assert_eq!(
        vrange((1.0, 1.0), 3, 1),
        ("{xlabel} = 1".to_string(), "{ylabel}".to_string())
    );
}

#[test]
fn aligned_lines_title_their_constant_coordinate() {
    // Row-aligned line at row 2 spanning columns 0..5.
    assert_eq!(
        aligned_line_desc(0, 2, 5, 2),
        Some((
            "{ylabel} = 2; {xlabel} = [0, 5]".to_string(),
            "{xlabel}".to_string()
        ))
    );
    // Column-aligned line at column 3 spanning rows 1..6.
    assert_eq!(
        aligned_line_desc(3, 1, 3, 6),
        Some((
            "{xlabel} = 3; {ylabel} = [1, 6]".to_string(),
            "{ylabel}".to_string()
        ))
    );
    // Either drag direction gives the same title.
    assert_eq!(aligned_line_desc(5, 2, 0, 2), aligned_line_desc(0, 2, 5, 2));
    assert_eq!(aligned_line_desc(3, 6, 3, 1), aligned_line_desc(3, 1, 3, 6));
    // A diagonal line is not aligned.
    assert_eq!(aligned_line_desc(0, 0, 3, 4), None);
    // A single pixel is column-aligned.
    assert_eq!(
        aligned_line_desc(4, 4, 4, 4),
        Some((
            "{xlabel} = 4; {ylabel} = [4, 4]".to_string(),
            "{ylabel}".to_string()
        ))
    );
}

#[test]
fn band_is_clamped_inside_the_image() {
    // Centered band of 3 around row 1 of a 5-row image.
    assert_eq!(aligned_band(1, 5, 3), (0, 2));
    // Near the top edge the band is pushed inside.
    assert_eq!(aligned_band(0, 5, 3), (0, 2));
    // Near the bottom edge too.
    assert_eq!(aligned_band(4, 5, 3), (2, 4));
    // An even width starts half a pixel later.
    assert_eq!(aligned_band(2, 10, 4), (0, 3));
    assert_eq!(aligned_band(5, 10, 4), (3, 6));
    // Wider than the image: the whole image.
    assert_eq!(aligned_band(1, 3, 9), (0, 2));
    // Zero width counts as one pixel.
    assert_eq!(aligned_band(2, 5, 0), (2, 2));
    // A position off the image is clamped.
    assert_eq!(aligned_band(-7, 5, 1), (0, 0));
    assert_eq!(aligned_band(40, 5, 1), (4, 4));
    // Empty axis.
    assert_eq!(aligned_band(0, 0, 1), (0, 0));
    assert_eq!(
        aligned_profile_desc(true, 4, 5, 3),
        ("{ylabel} = [2, 4]".to_string(), "{xlabel}".to_string())
    );
}

#[test]
fn even_band_rounds_its_start_toward_zero() {
    assert_eq!(aligned_band(3, 10, 2), (2, 3));
    assert_eq!(
        aligned_profile_desc(false, 0, 0, 3),
        ("{xlabel} = [0, 0]".to_string(), "{ylabel}".to_string())
    );
}

#[test]
fn method_labels_and_zero_stripping() {
    assert_eq!(method_label(ProfileMethod::Mean), "Mean");
    assert_eq!(method_label(ProfileMethod::Sum), "Sum");
    assert_eq!(strip_trailing_zeros("1.2500"), "1.25");
    assert_eq!(strip_trailing_zeros("3.000"), "3");
    assert_eq!(strip_trailing_zeros("100"), "100");
    assert_eq!(strip_trailing_zeros("0.0"), "0");
}

#[test]
fn relabel_replaces_every_occurrence_and_keeps_other_text() {
    assert_eq!(
        relabel("{xlabel}{xlabel} {ylabel}!", "a", "b"),
        "aa b!"
    );
    assert_eq!(relabel("no tokens", "a", "b"), "no tokens");
    // The Y pass also fills a token that the X label brought in.
    assert_eq!(relabel("{xlabel}", "{ylabel}", "Y2"), "Y2");
}
