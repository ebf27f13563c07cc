//! Selecting a subset of plot items, grouped by kind, with a per-kind
//! visibility filter.
//!
//! The dialog holds caller-supplied item entries `(label, kind, selected)`
//! and the set of kinds currently shown. A hidden kind hides its rows and
//! drops them from the chosen subset without touching their selection.

use vstd::prelude::*;
use crate::widget::high_level::PlotItemKind;
use crate::text::string_of;

verus! {

/// One selectable item entry: a display label, its kind, and whether it is
/// selected.
#[derive(Clone, Debug, PartialEq, Eq)]
pub struct SelectableItem {
    /// Display label / legend shown in the row.
    pub label: String,
    /// The item family this entry belongs to.
    pub kind: PlotItemKind,
    /// Whether the row is selected.
    pub selected: bool,
}

impl SelectableItem {
    /// An item entry with the given label, kind, and initial selection.
    pub fn new(label: &str, kind: PlotItemKind, selected: bool) -> (r: Self)
        ensures
            r.label@ == label@,
            r.kind == kind,
            r.selected == selected,
    {
        SelectableItem { label: string_of(label), kind, selected }
    }
}

/// All item kinds, in the order the dialog lists and groups them.
pub open spec fn kind_order() -> Seq<PlotItemKind> {
    seq![
        PlotItemKind::Curve,
        PlotItemKind::Image,
        PlotItemKind::Scatter,
        PlotItemKind::Histogram,
        PlotItemKind::Marker,
        PlotItemKind::Mask,
        PlotItemKind::Triangles,
        PlotItemKind::Shape,
    ]
}

/// The position of a kind in [`kind_order`].
pub open spec fn kind_rank(k: PlotItemKind) -> int {
    match k {
        PlotItemKind::Curve => 0,
        PlotItemKind::Image => 1,
        PlotItemKind::Scatter => 2,
        PlotItemKind::Histogram => 3,
        PlotItemKind::Marker => 4,
        PlotItemKind::Mask => 5,
        PlotItemKind::Triangles => 6,
        PlotItemKind::Shape => 7,
    }
}

/// The `i`-th kind of [`kind_order`].
fn kind_at(i: usize) -> (k: PlotItemKind)
    requires
        i < 8,
    ensures
        k == kind_order()[i as int],
{
    match i {
        0 => PlotItemKind::Curve,
        1 => PlotItemKind::Image,
        2 => PlotItemKind::Scatter,
        3 => PlotItemKind::Histogram,
        4 => PlotItemKind::Marker,
        5 => PlotItemKind::Mask,
        6 => PlotItemKind::Triangles,
        _ => PlotItemKind::Shape,
    }
}

/// Whether some entry has kind `k`.
pub open spec fn has_kind(items: Seq<SelectableItem>, k: PlotItemKind) -> bool {
    exists|i: int| 0 <= i < items.len() && items[i].kind == k
}

/// The kinds among the first `m` of [`kind_order`] that some entry has.
pub open spec fn kinds_upto(items: Seq<SelectableItem>, m: nat) -> Seq<PlotItemKind>
    decreases m,
{
    if m == 0 {
        Seq::empty()
    } else {
        let prev = kinds_upto(items, (m - 1) as nat);
        if has_kind(items, kind_order()[m - 1]) {
            prev.push(kind_order()[m - 1])
        } else {
            prev
        }
    }
}

/// The distinct kinds present in `items`, in [`kind_order`] order.
pub open spec fn distinct_kinds_of(items: Seq<SelectableItem>) -> Seq<PlotItemKind> {
    kinds_upto(items, 8)
}

/// The indices, among the first `n` entries, of those of kind `k`.
pub open spec fn indices_of_kind(items: Seq<SelectableItem>, k: PlotItemKind, n: nat) -> Seq<
    usize,
>
    decreases n,
{
    if n == 0 {
        Seq::empty()
    } else {
        let prev = indices_of_kind(items, k, (n - 1) as nat);
        if items[n - 1].kind == k {
            prev.push((n - 1) as usize)
        } else {
            prev
        }
    }
}

/// The entries, among the first `n`, that are selected and of a shown kind.
pub open spec fn chosen_upto(items: Seq<SelectableItem>, shown: Seq<PlotItemKind>, n: nat) -> Seq<
    SelectableItem,
>
    decreases n,
{
    if n == 0 {
        Seq::empty()
    } else {
        let prev = chosen_upto(items, shown, (n - 1) as nat);
        if items[n - 1].selected && shown.contains(items[n - 1].kind) {
            prev.push(items[n - 1])
        } else {
            prev
        }
    }
}

/// The visible groups among the first `m` kinds of [`kind_order`]: each
/// shown kind with at least one entry, with the indices of its entries.
pub open spec fn groups_upto(items: Seq<SelectableItem>, shown: Seq<PlotItemKind>, m: nat) -> Seq<
    (PlotItemKind, Seq<usize>),
>
    decreases m,
{
    if m == 0 {
        Seq::empty()
    } else {
        let prev = groups_upto(items, shown, (m - 1) as nat);
        let k = kind_order()[m - 1];
        let idx = indices_of_kind(items, k, items.len());
        if shown.contains(k) && idx.len() > 0 {
            prev.push((k, idx))
        } else {
            prev
        }
    }
}

proof fn lemma_indices_nonempty(items: Seq<SelectableItem>, k: PlotItemKind, n: nat)
    requires
        n <= items.len(),
    ensures
        indices_of_kind(items, k, n).len() > 0 <==> exists|i: int|
            0 <= i < n && items[i].kind == k,
    decreases n,
{
    if n > 0 {
        lemma_indices_nonempty(items, k, (n - 1) as nat);
        if items[n - 1].kind != k {
            assert forall|i: int| 0 <= i < n && items[i].kind == k implies i < n - 1 by {}
        }
    }
}

/// The distinct kinds present in `items`, in kind order.
fn distinct_kinds(items: &[SelectableItem]) -> (r: Vec<PlotItemKind>)
    ensures
        r@ == distinct_kinds_of(items@),
{
    let mut out: Vec<PlotItemKind> = Vec::new();
    let mut m: usize = 0;
    while m < 8
        invariant
            m <= 8,
            out@ == kinds_upto(items@, m as nat),
        decreases 8 - m,
    {
        let k = kind_at(m);
        let mut found = false;
        let mut i: usize = 0;
        while i < items.len()
            invariant
                i <= items@.len(),
                found == exists|j: int| 0 <= j < i && items@[j].kind == k,
            decreases items@.len() - i,
        {
            if items[i].kind == k {
                found = true;
            }
            i = i + 1;
        }
        if found {
            out.push(k);
        }
        m = m + 1;
    }
    out
}

/// A widget to select a subset of plot items, grouped by kind, with a
/// per-kind filter.
pub struct ItemsSelectionDialog {
    items: Vec<SelectableItem>,
    /// Kinds currently shown by the kind filter, without repeats.
    shown_kinds: Vec<PlotItemKind>,
}

impl ItemsSelectionDialog {
    /// The item entries, in insertion order.
    pub closed spec fn spec_items(&self) -> Seq<SelectableItem> {
        self.items@
    }

    /// The kinds shown by the filter, in the order they were shown.
    pub closed spec fn spec_shown(&self) -> Seq<PlotItemKind> {
        self.shown_kinds@
    }

    /// The shown kinds never repeat.
    pub open spec fn wf(&self) -> bool {
        self.spec_shown().no_duplicates()
    }

    proof fn lemma_distinct_kinds_unique(items: Seq<SelectableItem>, m: nat)
        requires
            m <= 8,
        ensures
            kinds_upto(items, m).no_duplicates(),
            forall|j: int|
                0 <= j < kinds_upto(items, m).len() ==> kind_rank(
                    #[trigger] kinds_upto(items, m)[j],
                ) < m,
        decreases m,
    {
        if m > 0 {
            Self::lemma_distinct_kinds_unique(items, (m - 1) as nat);
            let prev = kinds_upto(items, (m - 1) as nat);
            let cur = kinds_upto(items, m);
            let k = kind_order()[m - 1];
            assert(kind_rank(k) == m - 1);
            if has_kind(items, k) {
                assert(cur == prev.push(k));
                assert forall|j: int| 0 <= j < cur.len() implies kind_rank(#[trigger] cur[j]) < m by {
                    if j < prev.len() {
                        assert(cur[j] == prev[j]);
                    }
                }
            }
        }
    }

    /// A dialog over `items`, with every kind present in `items` shown.
    pub fn new(items: Vec<SelectableItem>) -> (d: Self)
        ensures
            d.wf(),
            d.spec_items() == items@,
            d.spec_shown() == distinct_kinds_of(items@),
    {
        let shown_kinds = distinct_kinds(items.as_slice());
        proof {
            Self::lemma_distinct_kinds_unique(items@, 8);
        }
        ItemsSelectionDialog { items, shown_kinds }
    }

    /// Replace the item entries, re-showing every kind present in the new
    /// list.
    pub fn set_items(&mut self, items: Vec<SelectableItem>)
        ensures
            final(self).wf(),
            final(self).spec_items() == items@,
            final(self).spec_shown() == distinct_kinds_of(items@),
    {
        self.shown_kinds = distinct_kinds(items.as_slice());
        proof {
            Self::lemma_distinct_kinds_unique(items@, 8);
        }
        self.items = items;
    }

    /// All item entries (selected or not), in insertion order.
    pub fn items(&self) -> (r: &[SelectableItem])
        ensures
            r@ == self.spec_items(),
    {
        self.items.as_slice()
    }

    /// The distinct kinds present in the entries, in kind order.
    pub fn available_kinds(&self) -> (r: Vec<PlotItemKind>)
        ensures
            r@ == distinct_kinds_of(self.spec_items()),
    {
        distinct_kinds(self.items.as_slice())
    }

    /// Whether `kind` is currently shown by the kind filter.
    pub fn is_kind_shown(&self, kind: PlotItemKind) -> (r: bool)
        ensures
            r == self.spec_shown().contains(kind),
    {
        let mut i: usize = 0;
        while i < self.shown_kinds.len()
            invariant
                i <= self.shown_kinds@.len(),
                forall|j: int| 0 <= j < i ==> self.shown_kinds@[j] != kind,
            decreases self.shown_kinds@.len() - i,
        {
            if self.shown_kinds[i] == kind {
                return true;
            }
            i = i + 1;
        }
        false
    }

    /// Show or hide all rows of `kind`. Hiding a kind does not change any
    /// entry's selection, so re-showing it restores the prior subset.
    pub fn set_kind_shown(&mut self, kind: PlotItemKind, shown: bool)
        requires
            old(self).wf(),
        ensures
            final(self).wf(),
            final(self).spec_items() == old(self).spec_items(),
            forall|k: PlotItemKind|
                #[trigger] final(self).spec_shown().contains(k) == if k == kind {
                    shown
                } else {
                    old(self).spec_shown().contains(k)
                },
            shown && !old(self).spec_shown().contains(kind) ==> final(self).spec_shown() == old(
                self,
            ).spec_shown().push(kind),
            !shown ==> final(self).spec_shown() == old(self).spec_shown().filter(
                |k: PlotItemKind| k != kind,
            ),
            shown && old(self).spec_shown().contains(kind) ==> final(self).spec_shown() == old(
                self,
            ).spec_shown(),
    {
        let ghost before = self.shown_kinds@;
        let mut pos: Option<usize> = None;
        let mut i: usize = 0;
        while i < self.shown_kinds.len()
            invariant
                i <= self.shown_kinds@.len(),
                self.shown_kinds@ == before,
                pos is None ==> forall|j: int| 0 <= j < i ==> before[j] != kind,
                pos matches Some(p) ==> p < before.len() && before[p as int] == kind,
            decreases self.shown_kinds@.len() - i,
        {
            if pos.is_none() && self.shown_kinds[i] == kind {
                pos = Some(i);
            }
            i = i + 1;
        }
        proof {
            broadcast use vstd::seq_lib::group_seq_properties;
        }
        match (shown, pos) {
            (true, None) => {
                self.shown_kinds.push(kind);
                proof {
                    assert forall|k: PlotItemKind| #[trigger] self.shown_kinds@.contains(k) == if k
                        == kind {
                        shown
                    } else {
                        before.contains(k)
                    } by {
                        if before.contains(k) {
                            let j = choose|j: int| 0 <= j < before.len() && before[j] == k;
                            assert(self.shown_kinds@[j] == k);
                        }
                        if k == kind {
                            assert(self.shown_kinds@[before.len() as int] == k);
                        }
                    }
                    assert(self.shown_kinds@.no_duplicates());
                }
            },
            (false, Some(p)) => {
                self.shown_kinds.remove(p);
                proof {
                    lemma_remove_unique(before, p as int, kind);
                }
            },
            _ => {
                proof {
                    if !shown {
                        assert(!before.contains(kind));
                        lemma_filter_absent(before, kind);
                    }
                }
            },
        }
    }

    /// Set the selection of the entry at `index` (out of range: no change).
    pub fn set_selected(&mut self, index: usize, selected: bool)
        ensures
            final(self).spec_shown() == old(self).spec_shown(),
            final(self).spec_items() == if index < old(self).spec_items().len() {
                old(self).spec_items().update(
                    index as int,
                    SelectableItem { selected, ..old(self).spec_items()[index as int] },
                )
            } else {
                old(self).spec_items()
            },
    {
        if index < self.items.len() {
            let label = self.items[index].label.clone();
            let kind = self.items[index].kind;
            self.items.set(index, SelectableItem { label, kind, selected });
        }
    }

    /// Toggle the selection of the entry at `index` (out of range: no
    /// change).
    pub fn toggle_selected(&mut self, index: usize)
        ensures
            final(self).spec_shown() == old(self).spec_shown(),
            final(self).spec_items() == if index < old(self).spec_items().len() {
                old(self).spec_items().update(
                    index as int,
                    SelectableItem {
                        selected: !old(self).spec_items()[index as int].selected,
                        ..old(self).spec_items()[index as int]
                    },
                )
            } else {
                old(self).spec_items()
            },
    {
        if index < self.items.len() {
            let flipped = !self.items[index].selected;
            self.set_selected(index, flipped);
        }
    }

    /// The chosen subset: every selected entry whose kind is shown, in
    /// insertion order.
    pub fn selected_items(&self) -> (r: Vec<&SelectableItem>)
        ensures
            r@.len() == chosen_upto(self.spec_items(), self.spec_shown(), self.spec_items().len()).len(),
            forall|j: int|
                0 <= j < r@.len() ==> *r@[j] == chosen_upto(
                    self.spec_items(),
                    self.spec_shown(),
                    self.spec_items().len(),
                )[j],
    {
        let mut out: Vec<&SelectableItem> = Vec::new();
        let mut i: usize = 0;
        while i < self.items.len()
            invariant
                i <= self.items@.len(),
                out@.len() == chosen_upto(self.items@, self.shown_kinds@, i as nat).len(),
                forall|j: int|
                    0 <= j < out@.len() ==> *out@[j] == chosen_upto(
                        self.items@,
                        self.shown_kinds@,
                        i as nat,
                    )[j],
            decreases self.items@.len() - i,
        {
            let it = &self.items[i];
            if it.selected && self.is_kind_shown(it.kind) {
                out.push(it);
            }
            i = i + 1;
        }
        out
    }

    /// The indices of the visible rows, grouped by kind in kind order; a
    /// shown kind without entries has no group.
    pub fn visible_groups(&self) -> (r: Vec<(PlotItemKind, Vec<usize>)>)
        ensures
            r@.len() == groups_upto(self.spec_items(), self.spec_shown(), 8).len(),
            forall|j: int|
                0 <= j < r@.len() ==> (#[trigger] r@[j]).0 == groups_upto(
                    self.spec_items(),
                    self.spec_shown(),
                    8,
                )[j].0 && r@[j].1@ == groups_upto(self.spec_items(), self.spec_shown(), 8)[j].1,
    {
        let mut groups: Vec<(PlotItemKind, Vec<usize>)> = Vec::new();
        let mut m: usize = 0;
        while m < 8
            invariant
                m <= 8,
                groups@.len() == groups_upto(self.items@, self.shown_kinds@, m as nat).len(),
                forall|j: int|
                    0 <= j < groups@.len() ==> (#[trigger] groups@[j]).0 == groups_upto(
                        self.items@,
                        self.shown_kinds@,
                        m as nat,
                    )[j].0 && groups@[j].1@ == groups_upto(
                        self.items@,
                        self.shown_kinds@,
                        m as nat,
                    )[j].1,
            decreases 8 - m,
        {
            let kind = kind_at(m);
            if self.is_kind_shown(kind) {
                let mut indices: Vec<usize> = Vec::new();
                let mut i: usize = 0;
                while i < self.items.len()
                    invariant
                        i <= self.items@.len(),
                        indices@ == indices_of_kind(self.items@, kind, i as nat),
                    decreases self.items@.len() - i,
                {
                    if self.items[i].kind == kind {
                        indices.push(i);
                    }
                    i = i + 1;
                }
                if indices.len() > 0 {
                    groups.push((kind, indices));
                }
            }
            m = m + 1;
        }
        groups
    }
}

proof fn lemma_remove_unique(s: Seq<PlotItemKind>, p: int, kind: PlotItemKind)
    requires
        s.no_duplicates(),
        0 <= p < s.len(),
        s[p] == kind,
    ensures
        s.remove(p).no_duplicates(),
        s.remove(p) == s.filter(|k: PlotItemKind| k != kind),
        forall|k: PlotItemKind| #[trigger] s.remove(p).contains(k) == (k != kind && s.contains(k)),
{
    broadcast use vstd::seq_lib::group_seq_properties;
    let r = s.remove(p);
    assert forall|k: PlotItemKind| #[trigger] r.contains(k) == (k != kind && s.contains(k)) by {
        if r.contains(k) {
            let j = choose|j: int| 0 <= j < r.len() && r[j] == k;
            if j < p {
                assert(s[j] == k);
            } else {
                assert(s[j + 1] == k);
            }
        }
        if k != kind && s.contains(k) {
            let j = choose|j: int| 0 <= j < s.len() && s[j] == k;
            assert(j != p);
            if j < p {
                assert(r[j] == k);
            } else {
                assert(r[j - 1] == k);
            }
        }
    }
    lemma_filter_remove(s, p, kind);
}

proof fn lemma_filter_remove(s: Seq<PlotItemKind>, p: int, kind: PlotItemKind)
    requires
        s.no_duplicates(),
        0 <= p < s.len(),
        s[p] == kind,
    ensures
        s.remove(p) == s.filter(|k: PlotItemKind| k != kind),
    decreases s.len(),
{
    broadcast use vstd::seq_lib::group_seq_properties;
    let f = |k: PlotItemKind| k != kind;
    reveal_with_fuel(Seq::<_>::filter, 1);
    if p == s.len() - 1 {
        assert(s.remove(p) =~= s.drop_last());
        lemma_filter_absent(s.drop_last(), kind);
    } else {
        let d = s.drop_last();
        assert(d.no_duplicates());
        lemma_filter_remove(d, p, kind);
        assert(s.last() != kind);
        assert(s.remove(p) =~= d.remove(p).push(s.last()));
    }
}

proof fn lemma_filter_absent(s: Seq<PlotItemKind>, kind: PlotItemKind)
    requires
        !s.contains(kind),
    ensures
        s.filter(|k: PlotItemKind| k != kind) == s,
    decreases s.len(),
{
    reveal_with_fuel(Seq::<_>::filter, 1);
    if s.len() > 0 {
        let d = s.drop_last();
        assert(!d.contains(kind)) by {
            if d.contains(kind) {
                let j = choose|j: int| 0 <= j < d.len() && d[j] == kind;
                assert(s[j] == kind);
            }
        }
        lemma_filter_absent(d, kind);
        assert(s.last() != kind);
        assert(s =~= d.push(s.last()));
    } else {
        assert(s.filter(|k: PlotItemKind| k != kind) =~= s);
    }
}

/// The chosen subset depends on the kind filter only through which kinds
/// it shows: hiding a kind and showing it again restores the subset.
pub proof fn lemma_chosen_depends_on_shown_kinds(
    items: Seq<SelectableItem>,
    s1: Seq<PlotItemKind>,
    s2: Seq<PlotItemKind>,
    n: nat,
)
    requires
        forall|k: PlotItemKind| #[trigger] s1.contains(k) == s2.contains(k),
    ensures
        chosen_upto(items, s1, n) == chosen_upto(items, s2, n),
    decreases n,
{
    if n > 0 {
        lemma_chosen_depends_on_shown_kinds(items, s1, s2, (n - 1) as nat);
        assert(s1.contains(items[n - 1].kind) == s2.contains(items[n - 1].kind));
    }
}

/// Every chosen entry is selected and of a shown kind, and no other entry
/// is chosen.
pub proof fn lemma_chosen_are_selected_and_shown(
    items: Seq<SelectableItem>,
    shown: Seq<PlotItemKind>,
    n: nat,
)
    requires
        n <= items.len(),
    ensures
        forall|j: int|
            0 <= j < chosen_upto(items, shown, n).len() ==> (#[trigger] chosen_upto(
                items,
                shown,
                n,
            )[j]).selected && shown.contains(chosen_upto(items, shown, n)[j].kind),
        chosen_upto(items, shown, n).len() <= n,
    decreases n,
{
    if n > 0 {
        lemma_chosen_are_selected_and_shown(items, shown, (n - 1) as nat);
        let prev = chosen_upto(items, shown, (n - 1) as nat);
        let cur = chosen_upto(items, shown, n);
        assert forall|j: int| 0 <= j < cur.len() implies (#[trigger] cur[j]).selected
            && shown.contains(cur[j].kind) by {
            if j < prev.len() {
                assert(cur[j] == prev[j]);
            }
        }
    }
}

/// The visible groups depend on the kind filter only through which kinds
/// it shows, not on the order in which they were shown.
pub proof fn lemma_groups_depend_on_shown_kinds(
    items: Seq<SelectableItem>,
    s1: Seq<PlotItemKind>,
    s2: Seq<PlotItemKind>,
    m: nat,
)
    requires
        forall|k: PlotItemKind| #[trigger] s1.contains(k) == s2.contains(k),
    ensures
        groups_upto(items, s1, m) == groups_upto(items, s2, m),
    decreases m,
{
    if m > 0 {
        lemma_groups_depend_on_shown_kinds(items, s1, s2, (m - 1) as nat);
        let k = kind_order()[m - 1];
        assert(s1.contains(k) == s2.contains(k));
    }
}

/// The visible groups come in strictly increasing kind order (Curve, Image,
/// Scatter, Histogram, Marker, Mask, Triangles, Shape); each is of a shown
/// kind, is not empty, and lists entries of its kind in increasing order.
pub proof fn lemma_groups_in_kind_order(items: Seq<SelectableItem>, shown: Seq<PlotItemKind>, m: nat)
    requires
        m <= 8,
        items.len() <= usize::MAX,
    ensures
        forall|j: int, k: int|
            0 <= j < k < groups_upto(items, shown, m).len() ==> kind_rank(
                #[trigger] groups_upto(items, shown, m)[j].0,
            ) < kind_rank(#[trigger] groups_upto(items, shown, m)[k].0),
        forall|j: int|
            0 <= j < groups_upto(items, shown, m).len() ==> {
                let g = #[trigger] groups_upto(items, shown, m)[j];
                &&& kind_rank(g.0) < m
                &&& shown.contains(g.0)
                &&& g.1.len() > 0
                &&& forall|t: int| 0 <= t < g.1.len() ==> #[trigger] g.1[t] < items.len()
                    && items[g.1[t] as int].kind == g.0
                &&& forall|t: int, u: int| 0 <= t < u < g.1.len() ==> g.1[t] < g.1[u]
            },
    decreases m,
{
    if m > 0 {
        lemma_groups_in_kind_order(items, shown, (m - 1) as nat);
        let prev = groups_upto(items, shown, (m - 1) as nat);
        let cur = groups_upto(items, shown, m);
        let k = kind_order()[m - 1];
        assert(kind_rank(k) == m - 1);
        let idx = indices_of_kind(items, k, items.len());
        lemma_indices_of_kind_sorted(items, k, items.len());
        if shown.contains(k) && idx.len() > 0 {
            assert(cur == prev.push((k, idx)));
            assert forall|j: int| 0 <= j < cur.len() implies kind_rank(#[trigger] cur[j].0) < m by {
                if j < prev.len() {
                    assert(cur[j] == prev[j]);
                }
            }
            assert forall|j: int, l: int| 0 <= j < l < cur.len() implies kind_rank(
                #[trigger] cur[j].0,
            ) < kind_rank(#[trigger] cur[l].0) by {
                assert(cur[j] == prev[j]);
                if l < prev.len() {
                    assert(cur[l] == prev[l]);
                }
            }
            assert forall|j: int| 0 <= j < cur.len() implies {
                let g = #[trigger] cur[j];
                &&& kind_rank(g.0) < m
                &&& shown.contains(g.0)
                &&& g.1.len() > 0
                &&& forall|t: int| 0 <= t < g.1.len() ==> #[trigger] g.1[t] < items.len()
                    && items[g.1[t] as int].kind == g.0
                &&& forall|t: int, u: int| 0 <= t < u < g.1.len() ==> g.1[t] < g.1[u]
            } by {
                if j < prev.len() {
                    assert(cur[j] == prev[j]);
                }
            }
        }
    }
}

proof fn lemma_indices_of_kind_sorted(items: Seq<SelectableItem>, k: PlotItemKind, n: nat)
    requires
        n <= items.len(),
        items.len() <= usize::MAX,
    ensures
        forall|t: int|
            0 <= t < indices_of_kind(items, k, n).len() ==> #[trigger] indices_of_kind(
                items,
                k,
                n,
            )[t] < n && items[indices_of_kind(items, k, n)[t] as int].kind == k,
        forall|t: int, u: int|
            0 <= t < u < indices_of_kind(items, k, n).len() ==> indices_of_kind(items, k, n)[t]
                < indices_of_kind(items, k, n)[u],
    decreases n,
{
    if n > 0 {
        lemma_indices_of_kind_sorted(items, k, (n - 1) as nat);
        let prev = indices_of_kind(items, k, (n - 1) as nat);
        let cur = indices_of_kind(items, k, n);
        if items[n - 1].kind == k {
            assert(cur == prev.push((n - 1) as usize));
            assert forall|t: int| 0 <= t < cur.len() implies #[trigger] cur[t] < n
                && items[cur[t] as int].kind == k by {
                if t < prev.len() {
                    assert(cur[t] == prev[t]);
                }
            }
            assert forall|t: int, u: int| 0 <= t < u < cur.len() implies cur[t] < cur[u] by {
                assert(cur[t] == prev[t]);
                if u < prev.len() {
                    assert(cur[u] == prev[u]);
                }
            }
        }
    }
}

} // verus!
