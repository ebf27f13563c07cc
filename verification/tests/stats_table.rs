use siplot::widget::stats_widget::{trim_exponential, trim_fraction, StatsWidget, UpdateMode, STAT_COLUMNS};

#[test]
fn stat_columns_match_silx_default_stats_exactly() {
    assert_eq!(
        STAT_COLUMNS,
        ["min", "coords min", "max", "coords max", "COM", "mean", "std"]
    );
}

fn count_items(data: &Vec<f64>, viewport: Option<(f64, f64)>) -> usize {
    match viewport {
        None => data.len(),
        Some((lo, hi)) => data.iter().filter(|v| **v >= lo && **v <= hi).count(),
    }
}

#[test]
fn auto_mode_recomputes_every_time() {
    let mut w: StatsWidget<usize> = StatsWidget::new();
    assert_eq!(w.update_mode(), UpdateMode::Auto);
    assert!(!w.on_visible_data());
    let a = vec![1.0, 2.0, 3.0];
    let inputs = [("a", a.clone())];
    w.recompute(&inputs, None, count_items);
    assert_eq!(w.rows().len(), 1);
    assert_eq!(w.rows()[0].0, "a");
    assert_eq!(w.rows()[0].1, 3);
    let inputs2 = [("a", a.clone()), ("b", vec![0.5])];
    w.recompute(&inputs2, None, count_items);
    assert_eq!(w.rows().len(), 2);
    assert_eq!(w.rows()[1], ("b".to_string(), 1));
}

#[test]
fn manual_mode_waits_for_a_request() {
    let mut w: StatsWidget<usize> = StatsWidget::new();
    w.set_update_mode(UpdateMode::Manual);
    let inputs = [("a", vec![1.0, 2.0])];
    // A fresh table has a pending request.
    w.recompute(&inputs, None, count_items);
    assert_eq!(w.rows()[0].1, 2);
    let inputs2 = [("a", vec![1.0, 2.0, 3.0, 4.0])];
    w.recompute(&inputs2, None, count_items);
    assert_eq!(w.rows()[0].1, 2, "no request: rows unchanged");
    w.request_update();
    w.recompute(&inputs2, None, count_items);
    assert_eq!(w.rows()[0].1, 4);
}

#[test]
fn visible_data_toggle_passes_the_viewport() {
    let mut w: StatsWidget<usize> = StatsWidget::new();
    let inputs = [("a", vec![1.0, 2.0, 3.0, 4.0])];
    w.recompute(&inputs, Some((2.0, 3.0)), count_items);
    assert_eq!(w.rows()[0].1, 4, "full range while the toggle is off");
    w.set_on_visible_data(true);
    assert!(w.on_visible_data());
    w.recompute(&inputs, Some((2.0, 3.0)), count_items);
    assert_eq!(w.rows()[0].1, 2);
    w.recompute(&inputs, None, count_items);
    assert_eq!(w.rows()[0].1, 4, "no viewport: full range");
}

#[test]
fn trims_fixed_and_exponential_renderings_like_percent_g() {
    assert_eq!(trim_fraction("1.500000"), "1.5");
    assert_eq!(trim_fraction("100.000"), "100");
    assert_eq!(trim_fraction("100"), "100");
    assert_eq!(trim_fraction("-0.000"), "-0");
    assert_eq!(trim_exponential("1.230e4"), "1.23e+04");
    assert_eq!(trim_exponential("1.234e-5"), "1.234e-05");
    assert_eq!(trim_exponential("1e7"), "1e+07");
    assert_eq!(trim_exponential("1.0e123"), "1e+123");
    assert_eq!(trim_exponential("2.5e+3"), "2.5e+03");
    assert_eq!(trim_exponential("2.5e"), "2.5e+00");
    assert_eq!(trim_exponential("42"), "42");
}

#[test]
fn update_mode_defaults_to_auto() {
    assert_eq!(UpdateMode::default(), UpdateMode::Auto);
}
