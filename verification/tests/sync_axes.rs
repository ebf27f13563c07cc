use siplot::plot::transform::Scale;
use siplot::widget::sync::{sync_aspect, AxesState, SyncAxes};

type Axes = AxesState<(f64, f64)>;

fn plot_with_limits(x0: f64, x1: f64, y0: f64, y1: f64) -> Axes {
    AxesState {
        x_limits: (x0, x1),
        y_limits: (y0, y1),
        x_scale: Scale::Linear,
        y_scale: Scale::Linear,
        x_inverted: false,
        y_inverted: false,
    }
}

fn limits(p: &Axes) -> (f64, f64, f64, f64) {
    (p.x_limits.0, p.x_limits.1, p.y_limits.0, p.y_limits.1)
}

#[test]
fn first_call_copies_first_plot_to_all() {
    let mut sync = SyncAxes::new();
    let mut plots = vec![
        plot_with_limits(0.0, 5.0, -1.0, 1.0),
        plot_with_limits(0.0, 1.0, 0.0, 10.0),
    ];
    sync.sync(&mut plots);
    assert_eq!(limits(&plots[1]), (0.0, 5.0, -1.0, 1.0));
    assert_eq!(limits(&plots[0]), (0.0, 5.0, -1.0, 1.0));
}

#[test]
fn changed_plot_propagates_to_others() {
    let mut sync = SyncAxes::new();
    let mut plots = vec![
        plot_with_limits(0.0, 5.0, -1.0, 1.0),
        plot_with_limits(0.0, 5.0, -1.0, 1.0),
    ];
    sync.sync(&mut plots);
    plots[0].x_limits = (1.0, 6.0);
    sync.sync(&mut plots);
    assert_eq!(plots[1].x_limits.0, 1.0);
    assert_eq!(plots[1].x_limits.1, 6.0);
}

#[test]
fn sync_x_only_leaves_y_independent() {
    let mut sync = SyncAxes::new().with_sync_y(false);
    let mut plots = vec![
        plot_with_limits(0.0, 5.0, -1.0, 1.0),
        plot_with_limits(0.0, 1.0, -2.0, 2.0),
    ];
    sync.sync(&mut plots);
    assert_eq!(plots[1].x_limits.0, 0.0);
    assert_eq!(plots[1].x_limits.1, 5.0);
    assert_eq!(plots[1].y_limits.0, -2.0);
    assert_eq!(plots[1].y_limits.1, 2.0);
}

#[test]
fn sync_y_only_leaves_x_independent() {
    let mut sync = SyncAxes::new().with_sync_x(false);
    let mut plots = vec![
        plot_with_limits(0.0, 5.0, -1.0, 1.0),
        plot_with_limits(10.0, 20.0, -1.0, 1.0),
    ];
    sync.sync(&mut plots);
    assert_eq!(plots[1].x_limits.0, 10.0);
    assert_eq!(plots[1].y_limits.0, -1.0);
}

#[test]
fn reset_reinitializes_from_first_plot() {
    let mut sync = SyncAxes::new();
    let mut plots = vec![
        plot_with_limits(0.0, 5.0, -1.0, 1.0),
        plot_with_limits(0.0, 5.0, -1.0, 1.0),
    ];
    sync.sync(&mut plots);
    sync.reset();
    plots[0] = plot_with_limits(100.0, 200.0, 50.0, 60.0);
    plots[1] = plot_with_limits(0.0, 1.0, 0.0, 1.0);
    sync.sync(&mut plots);
    assert_eq!(limits(&plots[1]), (100.0, 200.0, 50.0, 60.0));
}

#[test]
fn empty_slice_is_noop() {
    let mut sync: SyncAxes<(f64, f64)> = SyncAxes::new();
    let mut plots: Vec<Axes> = vec![];
    sync.sync(&mut plots);
    assert!(plots.is_empty());
}

#[test]
fn scale_syncs_by_default_like_silx() {
    let mut sync = SyncAxes::new();
    let mut plots = vec![
        plot_with_limits(0.0, 5.0, -1.0, 1.0),
        plot_with_limits(0.0, 5.0, -1.0, 1.0),
    ];
    sync.sync(&mut plots);
    plots[0].x_scale = Scale::Log10;
    plots[0].y_scale = Scale::Log10;
    sync.sync(&mut plots);
    assert_eq!(plots[1].x_scale, Scale::Log10);
    assert_eq!(plots[1].y_scale, Scale::Log10);
}

#[test]
fn direction_syncs_by_default_like_silx() {
    let mut sync = SyncAxes::new();
    let mut plots = vec![
        plot_with_limits(0.0, 5.0, -1.0, 1.0),
        plot_with_limits(0.0, 5.0, -1.0, 1.0),
    ];
    sync.sync(&mut plots);
    plots[0].y_inverted = true;
    sync.sync(&mut plots);
    assert!(plots[1].y_inverted);
    assert!(!plots[1].x_inverted, "the untouched direction stays put");
}

#[test]
fn first_call_pushes_scale_and_direction_from_first_plot() {
    let mut sync = SyncAxes::new();
    let mut a = plot_with_limits(0.0, 5.0, -1.0, 1.0);
    a.x_scale = Scale::Log10;
    a.x_inverted = true;
    let mut plots = vec![a, plot_with_limits(0.0, 5.0, -1.0, 1.0)];
    sync.sync(&mut plots);
    assert_eq!(plots[1].x_scale, Scale::Log10);
    assert!(plots[1].x_inverted);
}

#[test]
fn aspect_flags_gate_scale_and_direction_independently() {
    let mut sync = SyncAxes::new()
        .with_sync_scale(false)
        .with_sync_direction(false);
    let mut plots = vec![
        plot_with_limits(0.0, 5.0, -1.0, 1.0),
        plot_with_limits(0.0, 5.0, -1.0, 1.0),
    ];
    sync.sync(&mut plots);
    plots[0].x_scale = Scale::Log10;
    plots[0].x_inverted = true;
    plots[0].x_limits = (1.0, 6.0);
    sync.sync(&mut plots);
    assert_eq!(plots[1].x_scale, Scale::Linear, "scale must stay independent");
    assert!(!plots[1].x_inverted, "direction must stay independent");
    assert_eq!(plots[1].x_limits.0, 1.0, "limits still sync");
}

#[test]
fn unlinked_axis_syncs_no_aspect() {
    let mut sync = SyncAxes::new().with_sync_x(false);
    let mut plots = vec![
        plot_with_limits(0.0, 5.0, -1.0, 1.0),
        plot_with_limits(0.0, 5.0, -1.0, 1.0),
    ];
    sync.sync(&mut plots);
    plots[0].x_scale = Scale::Log10;
    plots[0].x_inverted = true;
    plots[0].y_scale = Scale::Log10;
    sync.sync(&mut plots);
    assert_eq!(plots[1].x_scale, Scale::Linear);
    assert!(!plots[1].x_inverted);
    assert_eq!(plots[1].y_scale, Scale::Log10);
}

#[test]
fn the_first_changed_plot_wins_and_a_quiet_frame_changes_nothing() {
    let mut prev: Option<u32> = None;
    let mut vals = vec![3, 7, 9];
    sync_aspect(&mut vals, &mut prev);
    assert_eq!(vals, vec![3, 3, 3]);
    assert_eq!(prev, Some(3));
    // Two plots changed: the first one in list order is the source.
    vals[1] = 5;
    vals[2] = 6;
    sync_aspect(&mut vals, &mut prev);
    assert_eq!(vals, vec![5, 5, 5]);
    assert_eq!(prev, Some(5));
    // Nothing changed since: a second frame is a no-op.
    sync_aspect(&mut vals, &mut prev);
    assert_eq!(vals, vec![5, 5, 5]);
    assert_eq!(prev, Some(5));
    // A remembered value over an empty list does nothing.
    let mut none: Vec<u32> = vec![];
    sync_aspect(&mut none, &mut prev);
    assert!(none.is_empty());
    assert_eq!(prev, Some(5));
}

#[test]
fn default_links_everything() {
    let s: SyncAxes<(f64, f64)> = SyncAxes::default();
    assert!(s.sync_x && s.sync_y && s.sync_limits && s.sync_scale && s.sync_direction);
    let t = SyncAxes::<(f64, f64)>::new().with_sync_limits(false);
    assert!(!t.sync_limits && t.sync_x);
}
