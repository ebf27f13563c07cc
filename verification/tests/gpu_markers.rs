use siplot::render::gpu_curve::Symbol;
use siplot::render::gpu_scene3d::{ImageInterpolation, PointMarker};

#[test]
fn symbol_codes_match_shader_switch() {
    assert_eq!(Symbol::Circle.code(), 0);
    assert_eq!(Symbol::Square.code(), 1);
    assert_eq!(Symbol::Cross.code(), 2);
    assert_eq!(Symbol::Plus.code(), 3);
    assert_eq!(Symbol::Triangle.code(), 4);
}

#[test]
fn point_marker_ids_are_distinct_and_default_is_circle() {
    let all = [
        PointMarker::Circle,
        PointMarker::Diamond,
        PointMarker::Square,
        PointMarker::Plus,
        PointMarker::Cross,
        PointMarker::Asterisk,
        PointMarker::HLine,
        PointMarker::VLine,
    ];
    for (i, a) in all.iter().enumerate() {
        for (j, b) in all.iter().enumerate() {
            assert_eq!(i == j, a.id() == b.id());
        }
    }
    assert_eq!(PointMarker::default(), PointMarker::Circle);
    assert_eq!(PointMarker::default().id(), PointMarker::Circle.id());
}

#[test]
fn image_interpolation_defaults_to_nearest() {
    assert_eq!(ImageInterpolation::default(), ImageInterpolation::Nearest);
}
