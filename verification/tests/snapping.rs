use siplot::widget::position_info::{snapping_candidates, SnapItem, SnapItemKind, SnappingMode};

fn item(kind: SnapItemKind, visible: bool, has_symbol: bool, active: bool) -> SnapItem {
    SnapItem {
        kind,
        visible,
        has_symbol,
        active,
    }
}

#[test]
fn snapping_disabled_without_a_kind_flag() {
    let items = [item(SnapItemKind::Curve, true, true, true)];
    assert!(snapping_candidates(SnappingMode::disabled(), &items).is_empty());
    assert!(snapping_candidates(
        SnappingMode::active_only() | SnappingMode::symbols_only(),
        &items
    )
    .is_empty());
}

#[test]
fn snapping_curve_all_items_takes_visible_curves_and_histograms() {
    let items = [
        item(SnapItemKind::Curve, true, false, false),
        item(SnapItemKind::Histogram, true, false, false),
        item(SnapItemKind::Curve, false, false, false),
        item(SnapItemKind::Scatter, true, false, false),
        item(SnapItemKind::Other, true, false, false),
    ];
    assert_eq!(snapping_candidates(SnappingMode::curve(), &items), vec![0, 1]);
}

#[test]
fn snapping_scatter_all_items_takes_visible_scatters_only() {
    let items = [
        item(SnapItemKind::Scatter, true, false, false),
        item(SnapItemKind::Curve, true, false, false),
        item(SnapItemKind::Scatter, false, false, false),
    ];
    assert_eq!(snapping_candidates(SnappingMode::scatter(), &items), vec![0]);
    assert_eq!(
        snapping_candidates(SnappingMode::curve() | SnappingMode::scatter(), &items),
        vec![0, 1]
    );
}

#[test]
fn snapping_active_only_ignores_visibility_and_excludes_histograms() {
    let items = [
        item(SnapItemKind::Curve, false, false, true),
        item(SnapItemKind::Curve, true, false, false),
        item(SnapItemKind::Histogram, true, false, true),
        item(SnapItemKind::Scatter, false, false, true),
    ];
    assert_eq!(
        snapping_candidates(
            SnappingMode::curve() | SnappingMode::scatter() | SnappingMode::active_only(),
            &items
        ),
        vec![0, 3]
    );
}

#[test]
fn snapping_symbols_only_drops_items_without_a_symbol() {
    let items = [
        item(SnapItemKind::Curve, true, true, false),
        item(SnapItemKind::Curve, true, false, false),
    ];
    assert_eq!(
        snapping_candidates(SnappingMode::curve() | SnappingMode::symbols_only(), &items),
        vec![0]
    );
}

#[test]
fn snapping_mode_bits_and_contains() {
    let mode = SnappingMode::curve() | SnappingMode::active_only();
    assert!(mode.contains(SnappingMode::curve()));
    assert!(mode.contains(SnappingMode::active_only()));
    assert!(!mode.contains(SnappingMode::scatter()));
    assert_eq!(mode.bits(), (1 << 3) | (1 << 1));
}

#[test]
fn snapping_flag_values_and_round_trip() {
    assert_eq!(SnappingMode::disabled().bits(), 0);
    assert_eq!(SnappingMode::crosshair().bits(), 1);
    assert_eq!(SnappingMode::active_only().bits(), 2);
    assert_eq!(SnappingMode::symbols_only().bits(), 4);
    assert_eq!(SnappingMode::curve().bits(), 8);
    assert_eq!(SnappingMode::scatter().bits(), 16);
    assert_eq!(SnappingMode::from_bits(0b11010).bits(), 0b11010);
    let u = SnappingMode::curve().union(SnappingMode::crosshair());
    assert_eq!(u, SnappingMode::curve() | SnappingMode::crosshair());
    assert!(u.contains(SnappingMode::disabled()));
    assert_eq!(SnappingMode::default(), SnappingMode::disabled());
}

#[test]
fn snapping_with_no_items_or_only_other_kinds_is_empty() {
    let all = SnappingMode::curve() | SnappingMode::scatter();
    assert!(snapping_candidates(all, &[]).is_empty());
    let items = [item(SnapItemKind::Other, true, true, true)];
    assert!(snapping_candidates(all, &items).is_empty());
    assert!(snapping_candidates(all | SnappingMode::active_only(), &items).is_empty());
}
