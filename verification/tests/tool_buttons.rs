use siplot::plot::colormap::{AutoscaleMode, ColormapName};
use siplot::widget::scalar_field_properties::ScalarFieldProperties;
use siplot::plot::transform::Scale;
use siplot::widget::tool_buttons::{AxisScaleToolButton, ProfileToolButton, RulerToolButton};

#[test]
fn profile_button_defaults_to_1d() {
    assert_eq!(ProfileToolButton::new().dimension(), 1);
}

#[test]
fn profile_set_dimension_accepts_only_1_and_2() {
    let mut b = ProfileToolButton::new();
    assert!(!b.set_dimension(1));
    assert!(b.set_dimension(2));
    assert_eq!(b.dimension(), 2);
    assert!(!b.set_dimension(0));
    assert!(!b.set_dimension(3));
    assert_eq!(b.dimension(), 2);
    assert!(b.set_dimension(1));
    assert_eq!(b.dimension(), 1);
}

#[test]
fn profile_labels_match_silx_state() {
    assert_eq!(ProfileToolButton::action_label(1), "1D profile on visible image");
    assert_eq!(ProfileToolButton::action_label(2), "2D profile on image stack");
    assert_eq!(
        ProfileToolButton::state_tooltip(1),
        "1D profile is computed on visible image"
    );
    assert_eq!(
        ProfileToolButton::state_tooltip(2),
        "2D profile is computed, one 1D profile for each image in the stack"
    );
}

#[test]
fn axis_scale_buttons_default_to_linear_and_track_changes() {
    let mut x = AxisScaleToolButton::x_axis();
    assert_eq!(x.scale(), Scale::Linear);
    assert!(!x.set_scale(Scale::Linear));
    assert!(x.set_scale(Scale::Log10));
    assert_eq!(x.scale(), Scale::Log10);
}

#[test]
fn axis_scale_labels_match_silx_state() {
    let x = AxisScaleToolButton::x_axis();
    let y = AxisScaleToolButton::y_axis();
    assert_eq!(x.action_label(Scale::Linear), "Linear X-axis");
    assert_eq!(x.action_label(Scale::Log10), "Logarithmic X-axis");
    assert_eq!(y.action_label(Scale::Linear), "Linear Y-axis");
    assert_eq!(y.action_label(Scale::Log10), "Logarithmic Y-axis");
    assert_eq!(x.state_tooltip(Scale::Linear), "X-axis scale is linear");
    assert_eq!(y.state_tooltip(Scale::Log10), "Y-axis scale is logarithmic");
}

#[test]
fn ruler_button_defaults_inactive_and_toggles() {
    let mut b = RulerToolButton::new();
    assert!(!b.is_active(), "the ruler starts unchecked");
    assert!(b.toggle(), "toggle activates");
    assert!(b.is_active());
    assert!(!b.toggle(), "toggle deactivates");
    assert!(!b.is_active());
    b.set_active(true);
    assert!(b.is_active());
}

#[test]
fn axis_letters_and_remaining_labels() {
    let x = AxisScaleToolButton::x_axis();
    let y = AxisScaleToolButton::y_axis();
    assert_eq!(x.axis_letter(), "X");
    assert_eq!(y.axis_letter(), "Y");
    assert_eq!(x.state_tooltip(Scale::Log10), "X-axis scale is logarithmic");
    assert_eq!(y.state_tooltip(Scale::Linear), "Y-axis scale is linear");
    let mut y2 = y;
    assert!(y2.set_scale(Scale::Log10));
    assert!(!y2.set_scale(Scale::Log10));
    assert_eq!(y2.axis_letter(), "Y");
}

#[test]
fn profile_button_default_matches_new() {
    assert_eq!(ProfileToolButton::default(), ProfileToolButton::new());
    assert_eq!(ProfileToolButton::default().dimension(), 1);
}

#[test]
fn scalar_field_panel_defaults_to_viridis_min_max() {
    let p = ScalarFieldProperties::new();
    assert_eq!(p.colormap_name(), ColormapName::Viridis);
    assert_eq!(p.autoscale_mode(), AutoscaleMode::MinMax);
    assert_eq!(ScalarFieldProperties::default().colormap_name(), ColormapName::Viridis);
}

#[test]
fn ruler_default_is_inactive() {
    assert!(!RulerToolButton::default().is_active());
}
