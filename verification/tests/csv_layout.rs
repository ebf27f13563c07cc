use siplot::widget::actions::io::{
    csv_column_labels, csv_header, csv_line, csv_row_count, rgba_image_shape, ErrorShape,
};

#[test]
fn header_lists_y_then_x_errors_then_y_errors() {
    assert_eq!(csv_header("x", "y", None, None), "x,y\n");
    assert_eq!(
        csv_header("t", "I", Some(ErrorShape::Symmetric), Some(ErrorShape::Asymmetric)),
        "t,I,t_errors,I_errors_below,I_errors_above\n"
    );
    assert_eq!(
        csv_header("", "", None, Some(ErrorShape::PerPoint)),
        ",,_errors\n"
    );
    assert_eq!(
        csv_column_labels("a", "b", Some(ErrorShape::Asymmetric), None),
        vec!["b", "a_errors_below", "a_errors_above"]
    );
}

#[test]
fn lines_join_cells_with_commas() {
    assert_eq!(csv_line(&[]), "\n");
    assert_eq!(csv_line(&["1".to_string()]), "1\n");
    assert_eq!(
        csv_line(&["1".to_string(), "".to_string(), "3".to_string()]),
        "1,,3\n"
    );
}

#[test]
fn rows_stop_at_the_shortest_per_point_column() {
    assert_eq!(csv_row_count(5, &[]), 5);
    assert_eq!(csv_row_count(5, &[Some(3), None, Some(4)]), 3);
    assert_eq!(csv_row_count(2, &[Some(3), None]), 2);
    assert_eq!(csv_row_count(4, &[None, None]), 4);
    assert_eq!(csv_row_count(4, &[Some(0)]), 0);
}

#[test]
fn clipboard_shape_needs_exactly_four_bytes_per_pixel() {
    assert_eq!(rgba_image_shape(2 * 3 * 4, 2, 3), Some((2, 3)));
    assert_eq!(rgba_image_shape(2 * 3 * 4 - 1, 2, 3), None);
    assert_eq!(rgba_image_shape(0, 0, 7), Some((0, 7)));
    assert_eq!(rgba_image_shape(4, 1, 2), None);
    assert_eq!(rgba_image_shape(usize::MAX, u32::MAX, u32::MAX), None);
}
