use siplot::widget::print_dialog::{preselected_printer_index, PrintDialog, PrintDialogAction};

#[test]
fn preselected_index_uses_default_when_valid() {
    assert_eq!(preselected_printer_index(3, Some(2)), 2);
}

#[test]
fn preselected_index_falls_back_to_first_when_default_missing_or_invalid() {
    assert_eq!(preselected_printer_index(3, None), 0);
    assert_eq!(preselected_printer_index(3, Some(7)), 0);
}

#[test]
fn preselected_index_empty_list_is_zero() {
    assert_eq!(preselected_printer_index(0, None), 0);
    assert_eq!(preselected_printer_index(0, Some(1)), 0);
}

#[test]
fn open_with_sets_state_and_clamps_selection() {
    let mut dlg = PrintDialog::new();
    assert!(!dlg.is_open());
    dlg.open_with(vec!["a".into(), "b".into()], Some(1));
    assert!(dlg.is_open());
    assert_eq!(dlg.selected(), 1);
    dlg.open_with(vec!["a".into()], Some(5));
    assert_eq!(dlg.selected(), 0);
}

#[test]
fn buttons_resolve_to_actions_and_close_the_dialog() {
    let mut dlg = PrintDialog::new();
    dlg.open_with(vec!["lp0".into(), "lp1".into()], None);
    assert_eq!(dlg.printer_names().len(), 2);
    // No button: stays open, nothing to do.
    assert_eq!(dlg.resolve_buttons(false, false, false), None);
    assert!(dlg.is_open());
    dlg.select(1);
    assert_eq!(dlg.selected(), 1);
    // Out-of-range selection is ignored.
    dlg.select(9);
    assert_eq!(dlg.selected(), 1);
    let action = dlg.resolve_buttons(true, false, false);
    assert_eq!(action, Some(PrintDialogAction::Print {
            printer: "lp1".to_string()
        }));
    assert!(!dlg.is_open());

    dlg.open_with(vec!["lp0".into()], Some(0));
    assert_eq!(dlg.resolve_buttons(false, true, false), Some(PrintDialogAction::SaveToFile));
    assert!(!dlg.is_open());

    dlg.open_with(vec!["lp0".into()], Some(0));
    assert_eq!(dlg.resolve_buttons(false, false, true), None);
    assert!(!dlg.is_open());
}

#[test]
fn print_without_printers_does_nothing_and_closed_dialog_ignores_buttons() {
    let mut dlg = PrintDialog::new();
    assert_eq!(dlg.resolve_buttons(true, true, true), None);
    dlg.open_with(vec![], None);
    assert!(dlg.is_open());
    assert_eq!(dlg.selected(), 0);
    let r = dlg.resolve_buttons(true, false, false);
    assert_eq!(r, None);
    dlg.close();
    assert!(!dlg.is_open());
}

#[test]
fn default_dialog_is_closed_and_empty() {
    let dlg = PrintDialog::default();
    assert!(!dlg.is_open());
    assert!(dlg.printer_names().is_empty());
    assert_eq!(dlg.selected(), 0);
}
