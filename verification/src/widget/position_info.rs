//! Snapping candidate selection for the cursor position readout: which plot
//! items the cursor may snap to under a snapping mode.

use vstd::prelude::*;

verus! {

/// The snapping mode bitfield, combinable with `|`.
///
/// A data-kind flag ([`Self::curve`] and/or [`Self::scatter`]) selects which
/// item kinds are snap candidates; [`Self::active_only`] restricts them to
/// the active item and [`Self::symbols_only`] to items showing a symbol.
/// [`Self::crosshair`] gates snapping on the crosshair being active, a
/// live-cursor condition the caller applies.
#[derive(Clone, Copy, Debug, PartialEq, Eq)]
pub struct SnappingMode(u8);

impl SnappingMode {
    /// No snapping.
    pub fn disabled() -> (r: Self)
        ensures
            r.spec_bits() == 0,
    {
        SnappingMode(0)
    }

    /// Snap only while the crosshair cursor is active.
    pub fn crosshair() -> (r: Self)
        ensures
            r.spec_bits() == 1,
    {
        SnappingMode(1)
    }

    /// Restrict candidates to the active curve/scatter.
    pub fn active_only() -> (r: Self)
        ensures
            r.spec_bits() == 2,
    {
        SnappingMode(2)
    }

    /// Restrict candidates to items showing a symbol.
    pub fn symbols_only() -> (r: Self)
        ensures
            r.spec_bits() == 4,
    {
        SnappingMode(4)
    }

    /// Snap to curves (and histograms).
    pub fn curve() -> (r: Self)
        ensures
            r.spec_bits() == 8,
    {
        SnappingMode(8)
    }

    /// Snap to scatters.
    pub fn scatter() -> (r: Self)
        ensures
            r.spec_bits() == 16,
    {
        SnappingMode(16)
    }

    /// The raw bits.
    pub closed spec fn spec_bits(self) -> u8 {
        self.0
    }

    /// The mode holding exactly `bits`.
    pub closed spec fn spec_from_bits(bits: u8) -> Self {
        SnappingMode(bits)
    }

    /// Whether every bit of `bits` is set in `self`.
    pub open spec fn has(self, bits: u8) -> bool {
        self.spec_bits() & bits == bits
    }

    /// Whether every flag in `flag` is set in `self`.
    pub fn contains(self, flag: Self) -> (r: bool)
        ensures
            r == self.has(flag.spec_bits()),
    {
        self.0 & flag.0 == flag.0
    }

    /// The raw bits.
    pub fn bits(self) -> (r: u8)
        ensures
            r == self.spec_bits(),
    {
        self.0
    }

    /// The mode with the flags of both `self` and `rhs`.
    pub fn union(self, rhs: Self) -> (r: Self)
        ensures
            r.spec_bits() == self.spec_bits() | rhs.spec_bits(),
            r == Self::spec_from_bits(self.spec_bits() | rhs.spec_bits()),
    {
        SnappingMode(self.0 | rhs.0)
    }

    /// The mode holding exactly `bits`.
    pub fn from_bits(bits: u8) -> (r: Self)
        ensures
            r.spec_bits() == bits,
            r == Self::spec_from_bits(bits),
    {
        SnappingMode(bits)
    }
}

impl core::ops::BitOr for SnappingMode {
    type Output = Self;

    fn bitor(self, rhs: Self) -> (r: Self) {
        self.union(rhs)
    }
}

impl vstd::std_specs::ops::BitOrSpecImpl for SnappingMode {
    open spec fn obeys_bitor_spec() -> bool {
        true
    }

    open spec fn bitor_req(self, rhs: Self) -> bool {
        true
    }

    open spec fn bitor_spec(self, rhs: Self) -> Self {
        Self::spec_from_bits(self.spec_bits() | rhs.spec_bits())
    }
}

/// The kind of a plot item as seen by snapping selection.
#[derive(Clone, Copy, Debug, PartialEq, Eq, Structural)]
pub enum SnapItemKind {
    /// A curve.
    Curve,
    /// A histogram, snapped under [`SnappingMode::curve`].
    Histogram,
    /// A scatter, snapped under [`SnappingMode::scatter`].
    Scatter,
    /// Any other item, never a snap candidate.
    Other,
}

/// One plot item described for snapping candidate selection.
#[derive(Clone, Copy, Debug, PartialEq, Eq)]
pub struct SnapItem {
    /// The item's kind.
    pub kind: SnapItemKind,
    /// Whether the item is visible.
    pub visible: bool,
    /// Whether the item shows a symbol.
    pub has_symbol: bool,
    /// Whether the item is the active curve/scatter.
    pub active: bool,
}

/// Whether `item` is a snap candidate under `mode`.
///
/// Without a CURVE or SCATTER flag nothing is. A curve is a candidate under
/// CURVE, a scatter under SCATTER, a histogram under CURVE only when not
/// restricted to the active item (the active curve is never a histogram).
/// The all-items path requires visibility, the active-only path requires the
/// item to be active; SYMBOLS_ONLY further requires a symbol.
pub open spec fn is_snap_candidate(mode: SnappingMode, item: SnapItem) -> bool {
    let want_curve = mode.has(8u8);
    let want_scatter = mode.has(16u8);
    let active_only = mode.has(2u8);
    let symbols_only = mode.has(4u8);
    let kind_match = match item.kind {
        SnapItemKind::Curve => want_curve,
        SnapItemKind::Histogram => want_curve && !active_only,
        SnapItemKind::Scatter => want_scatter,
        SnapItemKind::Other => false,
    };
    &&& want_curve || want_scatter
    &&& kind_match
    &&& if active_only {
        item.active
    } else {
        item.visible
    }
    &&& !symbols_only || item.has_symbol
}

/// The indices of the candidates among the first `n` items, in order.
pub open spec fn candidates_upto(mode: SnappingMode, items: Seq<SnapItem>, n: nat) -> Seq<usize>
    decreases n,
{
    if n == 0 {
        Seq::empty()
    } else {
        let prev = candidates_upto(mode, items, (n - 1) as nat);
        if is_snap_candidate(mode, items[n - 1]) {
            prev.push((n - 1) as usize)
        } else {
            prev
        }
    }
}

/// Select the snap-candidate items for `mode`: the indices into `items`, in
/// order, of the items that are candidates (see [`is_snap_candidate`]).
pub fn snapping_candidates(mode: SnappingMode, items: &[SnapItem]) -> (r: Vec<usize>)
    ensures
        r@ == candidates_upto(mode, items@, items@.len()),
{
    let want_curve = mode.contains(SnappingMode::curve());
    let want_scatter = mode.contains(SnappingMode::scatter());
    if !want_curve && !want_scatter {
        let r: Vec<usize> = Vec::new();
        proof {
            lemma_no_kind_no_candidates(mode, items@, items@.len());
        }
        return r;
    }
    let active_only = mode.contains(SnappingMode::active_only());
    let symbols_only = mode.contains(SnappingMode::symbols_only());
    let mut out: Vec<usize> = Vec::new();
    let mut i: usize = 0;
    while i < items.len()
        invariant
            i <= items@.len(),
            want_curve == mode.has(8u8),
            want_scatter == mode.has(16u8),
            active_only == mode.has(2u8),
            symbols_only == mode.has(4u8),
            want_curve || want_scatter,
            out@ == candidates_upto(mode, items@, i as nat),
        decreases items@.len() - i,
    {
        let item = items[i];
        let kind_match = match item.kind {
            SnapItemKind::Curve => want_curve,
            SnapItemKind::Histogram => want_curve && !active_only,
            SnapItemKind::Scatter => want_scatter,
            SnapItemKind::Other => false,
        };
        let keep = kind_match && (if active_only {
            item.active
        } else {
            item.visible
        }) && (!symbols_only || item.has_symbol);
        assert(keep == is_snap_candidate(mode, items@[i as int]));
        if keep {
            out.push(i);
        }
        i = i + 1;
    }
    out
}

/// Without a CURVE or SCATTER flag no item is a candidate, whatever the
/// modifier flags.
pub proof fn lemma_no_kind_no_candidates(mode: SnappingMode, items: Seq<SnapItem>, n: nat)
    requires
        !mode.has(8u8),
        !mode.has(16u8),
    ensures
        candidates_upto(mode, items, n) == Seq::<usize>::empty(),
    decreases n,
{
    if n > 0 {
        lemma_no_kind_no_candidates(mode, items, (n - 1) as nat);
    }
}

/// Candidate indices are in range, strictly increasing, and each names a
/// candidate item; every candidate item is listed.
pub proof fn lemma_candidates_exact(mode: SnappingMode, items: Seq<SnapItem>, n: nat)
    requires
        n <= items.len(),
        n <= usize::MAX,
    ensures
        forall|j: int|
            0 <= j < candidates_upto(mode, items, n).len() ==> (#[trigger] candidates_upto(
                mode,
                items,
                n,
            )[j]) < n && is_snap_candidate(mode, items[candidates_upto(mode, items, n)[j] as int]),
        forall|j: int, k: int|
            0 <= j < k < candidates_upto(mode, items, n).len() ==> candidates_upto(mode, items, n)[j]
                < candidates_upto(mode, items, n)[k],
        forall|i: int|
            0 <= i < n && is_snap_candidate(mode, items[i]) ==> candidates_upto(
                mode,
                items,
                n,
            ).contains(i as usize),
    decreases n,
{
    if n > 0 {
        lemma_candidates_exact(mode, items, (n - 1) as nat);
        let prev = candidates_upto(mode, items, (n - 1) as nat);
        let cur = candidates_upto(mode, items, n);
        if is_snap_candidate(mode, items[n - 1]) {
            assert(cur == prev.push((n - 1) as usize));
            assert forall|j: int| 0 <= j < cur.len() implies (#[trigger] cur[j]) < n
                && is_snap_candidate(mode, items[cur[j] as int]) by {
                if j < prev.len() {
                    assert(cur[j] == prev[j]);
                }
            }
            assert forall|j: int, k: int| 0 <= j < k < cur.len() implies cur[j] < cur[k] by {
                assert(cur[j] == prev[j]);
                if k < prev.len() {
                    assert(cur[k] == prev[k]);
                }
            }
        } else {
            assert(cur == prev);
        }
        assert forall|i: int| 0 <= i < n && is_snap_candidate(mode, items[i]) implies cur.contains(
            i as usize,
        ) by {
            if i < n - 1 {
                let j = choose|j: int| 0 <= j < prev.len() && prev[j] == i as usize;
                assert(cur[j] == i as usize);
            } else {
                assert(cur[cur.len() - 1] == i as usize);
            }
        }
    }
}

/// Under ACTIVE_ONLY every candidate is active and none is a histogram;
/// under SYMBOLS_ONLY every candidate shows a symbol; otherwise every
/// candidate is visible.
pub proof fn lemma_candidate_restrictions(mode: SnappingMode, item: SnapItem)
    requires
        is_snap_candidate(mode, item),
    ensures
        mode.has(2u8) ==> item.active && item.kind != SnapItemKind::Histogram,
        !mode.has(2u8) ==> item.visible,
        mode.has(4u8) ==> item.has_symbol,
        item.kind != SnapItemKind::Other,
{
}

impl Default for SnappingMode {
    /// Snapping disabled: no flag set.
    fn default() -> (m: Self)
        ensures
            m.spec_bits() == 0,
    {
        Self::disabled()
    }
}

/// Every snap candidate of `mode` is of a kind the mode's flags ask for: a
/// scatter only with the SCATTER flag (16), a curve or a histogram only with
/// the CURVE flag (8), never any other kind, whatever the modifier flags.
/// Under ACTIVE_ONLY (2) it is active and no histogram, otherwise visible;
/// under SYMBOLS_ONLY (4) it shows a symbol.
pub proof fn lemma_candidates_respect_flags(mode: SnappingMode, items: Seq<SnapItem>)
    requires
        items.len() <= usize::MAX,
    ensures
        forall|j: int|
            0 <= j < candidates_upto(mode, items, items.len()).len() ==> {
                let it = items[#[trigger] candidates_upto(mode, items, items.len())[j] as int];
                let bits = mode.spec_bits();
                &&& it.kind == SnapItemKind::Scatter ==> bits & 16u8 == 16u8
                &&& it.kind == SnapItemKind::Curve ==> bits & 8u8 == 8u8
                &&& it.kind == SnapItemKind::Histogram ==> bits & 8u8 == 8u8 && bits & 2u8 != 2u8
                &&& it.kind != SnapItemKind::Other
                &&& bits & 2u8 == 2u8 ==> it.active
                &&& bits & 2u8 != 2u8 ==> it.visible
                &&& bits & 4u8 == 4u8 ==> it.has_symbol
            },
{
    lemma_candidates_exact(mode, items, items.len());
}

/// With the CURVE flag and no modifier, every visible curve and histogram
/// is a candidate; with the SCATTER flag and no modifier, every visible
/// scatter is.
pub proof fn lemma_visible_items_are_candidates(mode: SnappingMode, items: Seq<SnapItem>, i: int)
    requires
        items.len() <= usize::MAX,
        0 <= i < items.len(),
        items[i].visible,
        mode.spec_bits() & 2u8 != 2u8,
        mode.spec_bits() & 4u8 != 4u8,
        (items[i].kind == SnapItemKind::Curve || items[i].kind == SnapItemKind::Histogram)
            && mode.spec_bits() & 8u8 == 8u8 || items[i].kind == SnapItemKind::Scatter
            && mode.spec_bits() & 16u8 == 16u8,
    ensures
        candidates_upto(mode, items, items.len()).contains(i as usize),
{
    lemma_candidates_exact(mode, items, items.len());
}

} // verus!
