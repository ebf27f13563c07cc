use siplot::widget::high_level::PlotItemKind;
use siplot::widget::items_selection_dialog::{ItemsSelectionDialog, SelectableItem};

fn sample() -> ItemsSelectionDialog {
    ItemsSelectionDialog::new(vec![
        SelectableItem::new("curve A", PlotItemKind::Curve, true),
        SelectableItem::new("curve B", PlotItemKind::Curve, false),
        SelectableItem::new("image A", PlotItemKind::Image, true),
        SelectableItem::new("scatter A", PlotItemKind::Scatter, false),
    ])
}

fn selected_labels(d: &ItemsSelectionDialog) -> Vec<String> {
    d.selected_items().iter().map(|it| it.label.clone()).collect()
}

#[test]
fn all_kinds_shown_by_default() {
    let d = sample();
    assert!(d.is_kind_shown(PlotItemKind::Curve));
    assert!(d.is_kind_shown(PlotItemKind::Image));
    assert!(d.is_kind_shown(PlotItemKind::Scatter));
    assert!(!d.is_kind_shown(PlotItemKind::Marker));
}

#[test]
fn available_kinds_are_distinct_in_kind_order() {
    let d = sample();
    assert_eq!(
        d.available_kinds(),
        vec![PlotItemKind::Curve, PlotItemKind::Image, PlotItemKind::Scatter]
    );
}

#[test]
fn selected_items_returns_only_selected_and_shown() {
    let d = sample();
    assert_eq!(selected_labels(&d), vec!["curve A", "image A"]);
}

#[test]
fn toggling_selection_changes_the_returned_subset() {
    let mut d = sample();
    d.toggle_selected(1);
    d.set_selected(2, false);
    assert_eq!(selected_labels(&d), vec!["curve A", "curve B"]);
}

#[test]
fn set_and_toggle_out_of_range_are_noops() {
    let mut d = sample();
    d.set_selected(99, true);
    d.toggle_selected(99);
    assert_eq!(selected_labels(&d), vec!["curve A", "image A"]);
}

#[test]
fn hiding_a_kind_drops_its_items_from_the_subset_without_clearing_selection() {
    let mut d = sample();
    d.set_kind_shown(PlotItemKind::Curve, false);
    assert_eq!(selected_labels(&d), vec!["image A"]);
    d.set_kind_shown(PlotItemKind::Curve, true);
    assert_eq!(selected_labels(&d), vec!["curve A", "image A"]);
}

#[test]
fn visible_groups_filters_and_groups_in_kind_order() {
    let mut d = sample();
    assert_eq!(
        d.visible_groups(),
        vec![
            (PlotItemKind::Curve, vec![0, 1]),
            (PlotItemKind::Image, vec![2]),
            (PlotItemKind::Scatter, vec![3]),
        ]
    );
    d.set_kind_shown(PlotItemKind::Image, false);
    assert_eq!(
        d.visible_groups(),
        vec![
            (PlotItemKind::Curve, vec![0, 1]),
            (PlotItemKind::Scatter, vec![3]),
        ]
    );
}

#[test]
fn set_items_reshows_every_new_kind() {
    let mut d = sample();
    d.set_kind_shown(PlotItemKind::Curve, false);
    d.set_items(vec![
        SelectableItem::new("m", PlotItemKind::Marker, true),
        SelectableItem::new("c", PlotItemKind::Curve, true),
    ]);
    assert!(d.is_kind_shown(PlotItemKind::Marker));
    assert!(d.is_kind_shown(PlotItemKind::Curve));
    assert_eq!(selected_labels(&d), vec!["m", "c"]);
}

#[test]
fn showing_an_absent_kind_adds_no_group_and_hiding_twice_is_harmless() {
    let mut d = sample();
    d.set_kind_shown(PlotItemKind::Mask, true);
    assert!(d.is_kind_shown(PlotItemKind::Mask));
    assert_eq!(d.available_kinds().len(), 3);
    d.set_kind_shown(PlotItemKind::Image, false);
    d.set_kind_shown(PlotItemKind::Image, false);
    assert!(!d.is_kind_shown(PlotItemKind::Image));
    d.set_kind_shown(PlotItemKind::Image, true);
    d.set_kind_shown(PlotItemKind::Image, true);
    assert!(d.is_kind_shown(PlotItemKind::Image));
    assert_eq!(d.visible_groups().len(), 3);
}

#[test]
fn kind_order_follows_the_declared_family_order_not_insertion_order() {
    let d = ItemsSelectionDialog::new(vec![
        SelectableItem::new("s", PlotItemKind::Shape, false),
        SelectableItem::new("h", PlotItemKind::Histogram, true),
        SelectableItem::new("c", PlotItemKind::Curve, true),
        SelectableItem::new("h2", PlotItemKind::Histogram, false),
    ]);
    assert_eq!(
        d.available_kinds(),
        vec![PlotItemKind::Curve, PlotItemKind::Histogram, PlotItemKind::Shape]
    );
    assert_eq!(
        d.visible_groups(),
        vec![
            (PlotItemKind::Curve, vec![2]),
            (PlotItemKind::Histogram, vec![1, 3]),
            (PlotItemKind::Shape, vec![0]),
        ]
    );
    // Selected items keep entry order.
    assert_eq!(selected_labels(&d), vec!["h", "c"]);
    assert_eq!(d.items().len(), 4);
    assert_eq!(d.items()[0].label, "s");
}

#[test]
fn empty_dialog_has_nothing_to_show() {
    let d = ItemsSelectionDialog::new(vec![]);
    assert!(d.available_kinds().is_empty());
    assert!(d.visible_groups().is_empty());
    assert!(d.selected_items().is_empty());
}
