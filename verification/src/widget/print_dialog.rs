//! Printer-selection dialog state for the toolbar Print action: the captured
//! printer list, the preselected printer, and what the dialog's buttons
//! decide.

use vstd::prelude::*;

verus! {

/// What the user chose in the print dialog this frame. The owner acts on it;
/// the dialog never prints or saves itself.
#[derive(Clone, Debug, PartialEq, Eq)]
pub enum PrintDialogAction {
    /// Print the figure to the named system printer.
    Print {
        /// The chosen printer's system name.
        printer: String,
    },
    /// Open the figure save dialog instead.
    SaveToFile,
}

/// The preselected index: the default when it indexes the list, else the
/// first printer, clamped to the list (0 for an empty list).
pub open spec fn preselected_index(count: nat, default_index: Option<usize>) -> nat {
    let base: nat = match default_index {
        Some(i) => if i < count {
            i as nat
        } else {
            0
        },
        None => 0,
    };
    let last: nat = if count > 0 {
        (count - 1) as nat
    } else {
        0
    };
    if base < last {
        base
    } else {
        last
    }
}

/// The index the printer combo preselects: the system default when present,
/// else the first printer, clamped to the list (0 for an empty list).
pub fn preselected_printer_index(count: usize, default_index: Option<usize>) -> (r: usize)
    ensures
        r == preselected_index(count as nat, default_index),
        count > 0 ==> r < count,
        count == 0 ==> r == 0,
{
    let base: usize = match default_index {
        Some(i) => if i < count {
            i
        } else {
            0
        },
        None => 0,
    };
    let last: usize = if count > 0 {
        count - 1
    } else {
        0
    };
    if base < last {
        base
    } else {
        last
    }
}

/// Printer-selection dialog state.
pub struct PrintDialog {
    open: bool,
    /// System printer names captured when the dialog opened.
    printer_names: Vec<String>,
    /// Index into `printer_names` of the combo selection.
    selected: usize,
}

impl PrintDialog {
    /// Whether the dialog is open.
    pub closed spec fn spec_open(&self) -> bool {
        self.open
    }

    /// The captured printer names.
    pub closed spec fn spec_printers(&self) -> Seq<Seq<char>> {
        self.printer_names@.map_values(|s: String| s@)
    }

    /// The selected printer index.
    pub closed spec fn spec_selected(&self) -> nat {
        self.selected as nat
    }

    /// A closed dialog with no printers captured.
    pub fn new() -> (d: Self)
        ensures
            !d.spec_open(),
            d.spec_printers() == Seq::<Seq<char>>::empty(),
            d.spec_selected() == 0,
    {
        let d = PrintDialog { open: false, printer_names: Vec::new(), selected: 0 };
        assert(d.spec_printers() =~= Seq::<Seq<char>>::empty());
        d
    }

    /// Whether the dialog is currently open.
    pub fn is_open(&self) -> (r: bool)
        ensures
            r == self.spec_open(),
    {
        self.open
    }

    /// The selected printer index.
    pub fn selected(&self) -> (r: usize)
        ensures
            r == self.spec_selected(),
    {
        self.selected
    }

    /// The captured printer names.
    pub fn printer_names(&self) -> (r: &[String])
        ensures
            r@.map_values(|s: String| s@) == self.spec_printers(),
    {
        self.printer_names.as_slice()
    }

    /// Select the printer at `index` in the combo (ignored when out of
    /// range).
    pub fn select(&mut self, index: usize)
        ensures
            final(self).spec_open() == old(self).spec_open(),
            final(self).spec_printers() == old(self).spec_printers(),
            final(self).spec_selected() == if index < old(self).spec_printers().len() {
                index as nat
            } else {
                old(self).spec_selected()
            },
    {
        if index < self.printer_names.len() {
            self.selected = index;
        }
    }

    /// Open the dialog over the given printer list, preselecting
    /// `default_index` when valid. The list may be empty; the dialog then
    /// offers only "Save to file…".
    pub fn open_with(&mut self, printer_names: Vec<String>, default_index: Option<usize>)
        ensures
            final(self).spec_open(),
            final(self).spec_printers() == printer_names@.map_values(|s: String| s@),
            final(self).spec_selected() == preselected_index(printer_names@.len(), default_index),
    {
        self.selected = preselected_printer_index(printer_names.len(), default_index);
        self.printer_names = printer_names;
        self.open = true;
    }

    /// Resolve this frame's button clicks, in the order the buttons are laid
    /// out: Print (only with a printer to print to), then "Save to file…",
    /// then Cancel. A later click overrides an earlier one; Cancel closes
    /// without an action, and any action closes the dialog. A closed dialog
    /// decides nothing.
    pub fn resolve_buttons(&mut self, print: bool, save: bool, cancel: bool) -> (r: Option<
        PrintDialogAction,
    >)
        ensures
            final(self).spec_printers() == old(self).spec_printers(),
            final(self).spec_selected() == old(self).spec_selected(),
            !old(self).spec_open() ==> r is None && !final(self).spec_open(),
            old(self).spec_open() ==> {
                let can_print = print && old(self).spec_selected() < old(
                    self,
                ).spec_printers().len();
                &&& cancel ==> r is None
                &&& !cancel && save ==> r == Some(PrintDialogAction::SaveToFile)
                &&& !cancel && !save && can_print ==> (r matches Some(
                    PrintDialogAction::Print { printer },
                ) && printer@ == old(self).spec_printers()[old(self).spec_selected() as int])
                &&& !cancel && !save && !can_print ==> r is None
                &&& final(self).spec_open() == (r is None && !cancel)
            },
    {
        if !self.open {
            return None;
        }
        let mut action: Option<PrintDialogAction> = None;
        if print && self.selected < self.printer_names.len() {
            let name = self.printer_names[self.selected].clone();
            action = Some(PrintDialogAction::Print { printer: name });
        }
        if save {
            action = Some(PrintDialogAction::SaveToFile);
        }
        if cancel {
            action = None;
            self.open = false;
        }
        if action.is_some() {
            self.open = false;
        }
        action
    }

    /// Close the dialog (the window's close button).
    pub fn close(&mut self)
        ensures
            !final(self).spec_open(),
            final(self).spec_printers() == old(self).spec_printers(),
            final(self).spec_selected() == old(self).spec_selected(),
    {
        self.open = false;
    }
}

/// Opening always preselects a printer of the list when there is one.
pub proof fn lemma_preselection_in_range(count: nat, default_index: Option<usize>)
    ensures
        count > 0 ==> preselected_index(count, default_index) < count,
        count == 0 ==> preselected_index(count, default_index) == 0,
{
}

impl Default for PrintDialog {
    fn default() -> (d: Self)
        ensures
            !d.spec_open(),
            d.spec_printers() == Seq::<Seq<char>>::empty(),
            d.spec_selected() == 0,
    {
        Self::new()
    }
}

/// The preselected printer is the system default whenever the default
/// indexes the list; otherwise it is the first printer (0, also for an empty
/// list).
pub proof fn lemma_preselection_honours_default(count: nat, default_index: Option<usize>)
    ensures
        default_index is Some && (default_index->0 as nat) < count ==> preselected_index(
            count,
            default_index,
        ) == default_index->0 as nat,
        (default_index is None || default_index->0 as nat >= count) ==> preselected_index(
            count,
            default_index,
        ) == 0,
{
}

} // verus!
