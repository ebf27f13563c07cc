//! Axis synchronization across several plots: each frame, the aspect that
//! changed on one plot (limits, scale or direction of a linked axis) is
//! propagated to all the others.

use vstd::prelude::*;
use crate::plot::transform::Scale;
use vstd::std_specs::cmp::PartialEqSpec;

verus! {

/// The first of `vals` that differs from `p`, by the type's equality.
pub open spec fn first_changed<T: PartialEq>(vals: Seq<T>, p: T) -> Option<T>
    decreases vals.len(),
{
    if vals.len() == 0 {
        None
    } else if !vals[0].eq_spec(&p) {
        Some(vals[0])
    } else {
        first_changed(vals.skip(1), p)
    }
}

/// The value one aspect is synchronized to this frame: the first plot's
/// value when nothing is remembered yet, else the first value that differs
/// from the remembered one (none when nothing changed).
pub open spec fn sync_source<T: PartialEq>(vals: Seq<T>, prev: Option<T>) -> Option<T> {
    match prev {
        None => if vals.len() > 0 {
            Some(vals[0])
        } else {
            None
        },
        Some(p) => first_changed(vals, p),
    }
}

/// The aspect's values after the frame: all set to the source, if any.
pub open spec fn synced<T: PartialEq>(vals: Seq<T>, prev: Option<T>) -> Seq<T> {
    match sync_source(vals, prev) {
        Some(v) => Seq::new(vals.len(), |_i: int| v),
        None => vals,
    }
}

/// The remembered value after the frame.
pub open spec fn remembered<T: PartialEq>(vals: Seq<T>, prev: Option<T>) -> Option<T> {
    match sync_source(vals, prev) {
        Some(v) => Some(v),
        None => prev,
    }
}

/// `vals` all equal `v`.
pub open spec fn all_equal<T>(vals: Seq<T>, v: T) -> bool {
    forall|i: int| 0 <= i < vals.len() ==> #[trigger] vals[i] == v
}

proof fn lemma_first_changed_in<T: PartialEq>(vals: Seq<T>, p: T)
    ensures
        first_changed(vals, p) matches Some(v) ==> exists|i: int|
            0 <= i < vals.len() && #[trigger] vals[i] == v,
    decreases vals.len(),
{
    if vals.len() > 0 && vals[0].eq_spec(&p) {
        lemma_first_changed_in(vals.skip(1), p);
        if let Some(v) = first_changed(vals.skip(1), p) {
            let i = choose|i: int| 0 <= i < vals.skip(1).len() && vals.skip(1)[i] == v;
            assert(vals[i + 1] == v);
        }
    }
}

proof fn lemma_no_change_means_all_equal<T: PartialEq>(vals: Seq<T>, p: T)
    requires
        first_changed(vals, p) is None,
    ensures
        forall|i: int| 0 <= i < vals.len() ==> (#[trigger] vals[i]).eq_spec(&p),
    decreases vals.len(),
{
    if vals.len() > 0 {
        lemma_no_change_means_all_equal(vals.skip(1), p);
        assert forall|i: int| 0 <= i < vals.len() implies (#[trigger] vals[i]).eq_spec(&p) by {
            if i > 0 {
                assert(vals[i] == vals.skip(1)[i - 1]);
            }
        }
    }
}

/// After a frame, every plot shows the same value of a synchronized aspect,
/// for a type whose equality is plain equality.
pub proof fn lemma_sync_makes_plots_agree<T: PartialEq>(vals: Seq<T>, prev: Option<T>)
    requires
        forall|x: T, y: T| #[trigger] x.eq_spec(&y) <==> x == y,
    ensures
        all_equal(synced(vals, prev), synced(vals, prev)[0]),
        synced(vals, prev).len() == vals.len(),
{
    if let Some(p) = prev {
        if first_changed(vals, p) is None {
            lemma_no_change_means_all_equal(vals, p);
            assert forall|i: int| 0 <= i < vals.len() implies #[trigger] vals[i] == vals[0] by {
                assert(vals[i].eq_spec(&p));
                assert(vals[0].eq_spec(&p));
            }
        }
    }
}

/// With nothing remembered (a new or reset synchronizer), a frame copies the
/// first plot's value to every plot and remembers it.
pub proof fn lemma_fresh_sync_copies_first_plot<T: PartialEq>(vals: Seq<T>)
    requires
        vals.len() > 0,
    ensures
        all_equal(synced(vals, None), vals[0]),
        synced(vals, None).len() == vals.len(),
        remembered(vals, None) == Some(vals[0]),
{
}

/// A second frame with no change in between leaves the values and the
/// remembered value as they are.
pub proof fn lemma_sync_is_idempotent<T: PartialEq>(vals: Seq<T>, prev: Option<T>)
    ensures
        synced(synced(vals, prev), remembered(vals, prev)) == synced(vals, prev),
        remembered(synced(vals, prev), remembered(vals, prev)) == remembered(vals, prev),
{
    match sync_source(vals, prev) {
        Some(v) => {
            let s = synced(vals, prev);
            assert(s == Seq::new(vals.len(), |_i: int| v));
            lemma_first_changed_in(s, v);
            if let Some(w) = first_changed(s, v) {
                let i = choose|i: int| 0 <= i < s.len() && s[i] == w;
                assert(s[i] == v);
                assert(synced(s, Some(v)) =~= s);
            }
        },
        None => {},
    }
}

/// Synchronize one aspect over the plots' values: find the source (the
/// first plot's value when `prev` is unset, else the first value that
/// differs from `prev`), write it to every plot and remember it.
///
/// Whatever the type's equality does, the values are either left alone or
/// all set to one of them; where the type obeys its equality
/// specification, the source is exactly [`sync_source`].
pub fn sync_aspect<T: Copy + PartialEq>(values: &mut Vec<T>, prev: &mut Option<T>)
    requires
        *old(prev) is None ==> old(values)@.len() > 0,
    ensures
        final(values)@.len() == old(values)@.len(),
        (final(values)@ == old(values)@ && *final(prev) == *old(prev)) || exists|i: int|
            0 <= i < old(values)@.len() && all_equal(final(values)@, #[trigger] old(values)@[i])
                && *final(prev) == Some(old(values)@[i]),
        *old(prev) is None ==> all_equal(final(values)@, old(values)@[0]) && *final(prev) == Some(
            old(values)@[0],
        ),
        T::obeys_eq_spec() ==> final(values)@ == synced(old(values)@, *old(prev)) && *final(prev)
            == remembered(old(values)@, *old(prev)),
{
    let ghost vals = values@;
    let source: Option<T> = match *prev {
        None => Some(values[0]),
        Some(p) => {
            let mut found: Option<T> = None;
            let mut i: usize = 0;
            assert(vals.skip(0) =~= vals);
            while i < values.len() && found.is_none()
                invariant
                    values@ == vals,
                    i <= vals.len(),
                    found is None ==> T::obeys_eq_spec() ==> first_changed(vals, p)
                        == first_changed(vals.skip(i as int), p),
                    found matches Some(v) ==> exists|j: int|
                        0 <= j < vals.len() && #[trigger] vals[j] == v,
                    found matches Some(v) ==> T::obeys_eq_spec() ==> first_changed(vals, p)
                        == Some(v),
                decreases vals.len() - i,
            {
                let v = values[i];
                proof {
                    assert(vals.skip(i as int)[0] == v);
                    assert(vals.skip(i as int).skip(1) =~= vals.skip(i + 1));
                }
                if v != p {
                    found = Some(v);
                }
                i = i + 1;
            }
            proof {
                if found is None {
                    assert(vals.skip(i as int).len() == 0);
                }
            }
            found
        },
    };
    if let Some(v) = source {
        let n = values.len();
        let mut k: usize = 0;
        while k < n
            invariant
                n == vals.len(),
                values@.len() == n,
                k <= n,
                forall|j: int| 0 <= j < k ==> #[trigger] values@[j] == v,
            decreases n - k,
        {
            values.set(k, v);
            k = k + 1;
        }
        *prev = Some(v);
        assert(values@ =~= Seq::new(n as nat, |_i: int| v));
    }
}

/// One plot's state along the synchronized aspects; `L` is an axis's
/// limits.
#[derive(Clone, Copy, Debug, PartialEq)]
pub struct AxesState<L> {
    /// X-axis limits.
    pub x_limits: L,
    /// Left Y-axis limits.
    pub y_limits: L,
    /// X-axis scale.
    pub x_scale: Scale,
    /// Left Y-axis scale.
    pub y_scale: Scale,
    /// Whether the X axis is inverted.
    pub x_inverted: bool,
    /// Whether the left Y axis is inverted.
    pub y_inverted: bool,
}

/// Synchronizes the linked axes of several plots, frame by frame. By
/// default both axes are linked and limits, scale and direction are all
/// synchronized.
pub struct SyncAxes<L> {
    /// Link the X axes.
    pub sync_x: bool,
    /// Link the left Y axes.
    pub sync_y: bool,
    /// Synchronize limits along the linked axes.
    pub sync_limits: bool,
    /// Synchronize the scale along the linked axes.
    pub sync_scale: bool,
    /// Synchronize the direction along the linked axes.
    pub sync_direction: bool,
    prev_x: Option<L>,
    prev_y: Option<L>,
    prev_x_scale: Option<Scale>,
    prev_y_scale: Option<Scale>,
    prev_x_inverted: Option<bool>,
    prev_y_inverted: Option<bool>,
}

/// The plots' X limits.
pub open spec fn x_limits_of<L>(plots: Seq<AxesState<L>>) -> Seq<L> {
    plots.map_values(|p: AxesState<L>| p.x_limits)
}

/// The plots' Y limits.
pub open spec fn y_limits_of<L>(plots: Seq<AxesState<L>>) -> Seq<L> {
    plots.map_values(|p: AxesState<L>| p.y_limits)
}

/// The plots' X scales.
pub open spec fn x_scales_of<L>(plots: Seq<AxesState<L>>) -> Seq<Scale> {
    plots.map_values(|p: AxesState<L>| p.x_scale)
}

/// The plots' Y scales.
pub open spec fn y_scales_of<L>(plots: Seq<AxesState<L>>) -> Seq<Scale> {
    plots.map_values(|p: AxesState<L>| p.y_scale)
}

/// The plots' X directions.
pub open spec fn x_inverted_of<L>(plots: Seq<AxesState<L>>) -> Seq<bool> {
    plots.map_values(|p: AxesState<L>| p.x_inverted)
}

/// The plots' Y directions.
pub open spec fn y_inverted_of<L>(plots: Seq<AxesState<L>>) -> Seq<bool> {
    plots.map_values(|p: AxesState<L>| p.y_inverted)
}

/// Whatever equality did: the new values are the old ones (and the
/// remembered value is kept), or all equal one of the old values, which is
/// remembered.
pub open spec fn kept_or_copied<T>(vals: Seq<T>, prev: Option<T>, new_vals: Seq<T>, new_prev: Option<
    T,
>) -> bool {
    ||| new_vals == vals && new_prev == prev
    ||| exists|i: int|
        0 <= i < vals.len() && all_equal(new_vals, #[trigger] vals[i]) && new_vals.len()
            == vals.len() && new_prev == Some(vals[i])
}

/// One aspect of a frame: synchronized when `on`, else left alone.
pub open spec fn step<T: PartialEq>(on: bool, vals: Seq<T>, prev: Option<T>) -> Seq<T> {
    if on {
        synced(vals, prev)
    } else {
        vals
    }
}

/// The remembered value of one aspect after a frame.
pub open spec fn step_prev<T: PartialEq>(on: bool, vals: Seq<T>, prev: Option<T>) -> Option<T> {
    if on {
        remembered(vals, prev)
    } else {
        prev
    }
}

impl<L: Copy + PartialEq> SyncAxes<L> {
    /// The flags, as (X linked, Y linked, limits, scale, direction).
    pub closed spec fn spec_flags(&self) -> (bool, bool, bool, bool, bool) {
        (self.sync_x, self.sync_y, self.sync_limits, self.sync_scale, self.sync_direction)
    }

    pub closed spec fn spec_prev_x(&self) -> Option<L> {
        self.prev_x
    }

    pub closed spec fn spec_prev_y(&self) -> Option<L> {
        self.prev_y
    }

    pub closed spec fn spec_prev_x_scale(&self) -> Option<Scale> {
        self.prev_x_scale
    }

    pub closed spec fn spec_prev_y_scale(&self) -> Option<Scale> {
        self.prev_y_scale
    }

    pub closed spec fn spec_prev_x_inverted(&self) -> Option<bool> {
        self.prev_x_inverted
    }

    pub closed spec fn spec_prev_y_inverted(&self) -> Option<bool> {
        self.prev_y_inverted
    }

    /// The remembered values, in field order.
    pub open spec fn spec_memory(&self) -> (
        Option<L>,
        Option<L>,
        Option<Scale>,
        Option<Scale>,
        Option<bool>,
        Option<bool>,
    ) {
        (
            self.spec_prev_x(),
            self.spec_prev_y(),
            self.spec_prev_x_scale(),
            self.spec_prev_y_scale(),
            self.spec_prev_x_inverted(),
            self.spec_prev_y_inverted(),
        )
    }

    /// Nothing is remembered: the next frame copies the first plot.
    pub open spec fn is_fresh(&self) -> bool {
        &&& self.spec_prev_x() is None
        &&& self.spec_prev_y() is None
        &&& self.spec_prev_x_scale() is None
        &&& self.spec_prev_y_scale() is None
        &&& self.spec_prev_x_inverted() is None
        &&& self.spec_prev_y_inverted() is None
    }

    /// Synchronize everything on both axes.
    pub fn new() -> (s: Self)
        ensures
            s.spec_flags() == (true, true, true, true, true),
            s.is_fresh(),
    {
        SyncAxes {
            sync_x: true,
            sync_y: true,
            sync_limits: true,
            sync_scale: true,
            sync_direction: true,
            prev_x: None,
            prev_y: None,
            prev_x_scale: None,
            prev_y_scale: None,
            prev_x_inverted: None,
            prev_y_inverted: None,
        }
    }

    /// Enable or disable X-axis linking.
    pub fn with_sync_x(self, on: bool) -> (s: Self)
        ensures
            s.spec_flags() == (on, self.spec_flags().1, self.spec_flags().2, self.spec_flags().3, self.spec_flags().4),
            s.spec_memory() == self.spec_memory(),
    {
        SyncAxes { sync_x: on, ..self }
    }

    /// Enable or disable Y-axis linking.
    pub fn with_sync_y(self, on: bool) -> (s: Self)
        ensures
            s.spec_flags() == (self.spec_flags().0, on, self.spec_flags().2, self.spec_flags().3, self.spec_flags().4),
            s.spec_memory() == self.spec_memory(),
    {
        SyncAxes { sync_y: on, ..self }
    }

    /// Enable or disable limit synchronization.
    pub fn with_sync_limits(self, on: bool) -> (s: Self)
        ensures
            s.spec_flags() == (self.spec_flags().0, self.spec_flags().1, on, self.spec_flags().3, self.spec_flags().4),
            s.spec_memory() == self.spec_memory(),
    {
        SyncAxes { sync_limits: on, ..self }
    }

    /// Enable or disable scale synchronization.
    pub fn with_sync_scale(self, on: bool) -> (s: Self)
        ensures
            s.spec_flags() == (self.spec_flags().0, self.spec_flags().1, self.spec_flags().2, on, self.spec_flags().4),
            s.spec_memory() == self.spec_memory(),
    {
        SyncAxes { sync_scale: on, ..self }
    }

    /// Enable or disable direction synchronization.
    pub fn with_sync_direction(self, on: bool) -> (s: Self)
        ensures
            s.spec_flags() == (self.spec_flags().0, self.spec_flags().1, self.spec_flags().2, self.spec_flags().3, on),
            s.spec_memory() == self.spec_memory(),
    {
        SyncAxes { sync_direction: on, ..self }
    }

    /// Forget the remembered state, so that the next [`Self::sync`]
    /// re-initializes every aspect from the first plot.
    pub fn reset(&mut self)
        ensures
            final(self).is_fresh(),
            final(self).spec_flags() == old(self).spec_flags(),
    {
        self.prev_x = None;
        self.prev_y = None;
        self.prev_x_scale = None;
        self.prev_y_scale = None;
        self.prev_x_inverted = None;
        self.prev_y_inverted = None;
    }
    /// Synchronize the enabled aspects of the linked axes across `plots`
    /// for this frame. Per aspect, the first frame (or the first after
    /// [`Self::reset`]) copies the first plot to all others; later frames
    /// take the first plot whose value differs from the remembered one as
    /// the source. Nothing happens for an empty list.
    pub fn sync(&mut self, plots: &mut Vec<AxesState<L>>)
        ensures
            final(self).spec_flags() == old(self).spec_flags(),
            final(plots)@.len() == old(plots)@.len(),
            old(plots)@.len() == 0 ==> final(plots)@ == old(plots)@ && final(self).spec_memory() == old(self).spec_memory(),
            old(plots)@.len() > 0 ==> {
                let ps = old(plots)@;
                let fs = final(plots)@;
                let (xs, ys, lim, sc, dir) = old(self).spec_flags();
                &&& x_scales_of(fs) == step(xs && sc, x_scales_of(ps), old(self).spec_prev_x_scale())
                &&& y_scales_of(fs) == step(ys && sc, y_scales_of(ps), old(self).spec_prev_y_scale())
                &&& x_inverted_of(fs) == step(
                    xs && dir,
                    x_inverted_of(ps),
                    old(self).spec_prev_x_inverted(),
                )
                &&& y_inverted_of(fs) == step(
                    ys && dir,
                    y_inverted_of(ps),
                    old(self).spec_prev_y_inverted(),
                )
                &&& final(self).spec_prev_x_scale() == step_prev(
                    xs && sc,
                    x_scales_of(ps),
                    old(self).spec_prev_x_scale(),
                )
                &&& final(self).spec_prev_y_scale() == step_prev(
                    ys && sc,
                    y_scales_of(ps),
                    old(self).spec_prev_y_scale(),
                )
                &&& final(self).spec_prev_x_inverted() == step_prev(
                    xs && dir,
                    x_inverted_of(ps),
                    old(self).spec_prev_x_inverted(),
                )
                &&& final(self).spec_prev_y_inverted() == step_prev(
                    ys && dir,
                    y_inverted_of(ps),
                    old(self).spec_prev_y_inverted(),
                )
                &&& !(xs && lim) ==> x_limits_of(fs) == x_limits_of(ps) && final(self).spec_prev_x()
                    == old(self).spec_prev_x()
                &&& !(ys && lim) ==> y_limits_of(fs) == y_limits_of(ps) && final(self).spec_prev_y()
                    == old(self).spec_prev_y()
                &&& xs && lim ==> kept_or_copied(
                    x_limits_of(ps),
                    old(self).spec_prev_x(),
                    x_limits_of(fs),
                    final(self).spec_prev_x(),
                )
                &&& ys && lim ==> kept_or_copied(
                    y_limits_of(ps),
                    old(self).spec_prev_y(),
                    y_limits_of(fs),
                    final(self).spec_prev_y(),
                )
                &&& L::obeys_eq_spec() ==> x_limits_of(fs) == step(
                    xs && lim,
                    x_limits_of(ps),
                    old(self).spec_prev_x(),
                ) && final(self).spec_prev_x() == step_prev(
                    xs && lim,
                    x_limits_of(ps),
                    old(self).spec_prev_x(),
                )
                &&& L::obeys_eq_spec() ==> y_limits_of(fs) == step(
                    ys && lim,
                    y_limits_of(ps),
                    old(self).spec_prev_y(),
                ) && final(self).spec_prev_y() == step_prev(
                    ys && lim,
                    y_limits_of(ps),
                    old(self).spec_prev_y(),
                )
            },
    {
        let n = plots.len();
        if n == 0 {
            return;
        }
        let ghost ps = plots@;
        let mut xl: Vec<L> = Vec::new();
        let mut yl: Vec<L> = Vec::new();
        let mut xsc: Vec<Scale> = Vec::new();
        let mut ysc: Vec<Scale> = Vec::new();
        let mut xi: Vec<bool> = Vec::new();
        let mut yi: Vec<bool> = Vec::new();
        let mut i: usize = 0;
        while i < n
            invariant
                n == ps.len(),
                plots@ == ps,
                i <= n,
                xl@ == x_limits_of(ps).take(i as int),
                yl@ == y_limits_of(ps).take(i as int),
                xsc@ == x_scales_of(ps).take(i as int),
                ysc@ == y_scales_of(ps).take(i as int),
                xi@ == x_inverted_of(ps).take(i as int),
                yi@ == y_inverted_of(ps).take(i as int),
            decreases n - i,
        {
            let p = plots[i];
            xl.push(p.x_limits);
            yl.push(p.y_limits);
            xsc.push(p.x_scale);
            ysc.push(p.y_scale);
            xi.push(p.x_inverted);
            yi.push(p.y_inverted);
            proof {
                assert(xl@ =~= x_limits_of(ps).take(i + 1));
                assert(yl@ =~= y_limits_of(ps).take(i + 1));
                assert(xsc@ =~= x_scales_of(ps).take(i + 1));
                assert(ysc@ =~= y_scales_of(ps).take(i + 1));
                assert(xi@ =~= x_inverted_of(ps).take(i + 1));
                assert(yi@ =~= y_inverted_of(ps).take(i + 1));
            }
            i = i + 1;
        }
        proof {
            assert(xl@ =~= x_limits_of(ps));
            assert(yl@ =~= y_limits_of(ps));
            assert(xsc@ =~= x_scales_of(ps));
            assert(ysc@ =~= y_scales_of(ps));
            assert(xi@ =~= x_inverted_of(ps));
            assert(yi@ =~= y_inverted_of(ps));
        }
        if self.sync_x {
            if self.sync_limits {
                sync_aspect(&mut xl, &mut self.prev_x);
            }
            if self.sync_scale {
                sync_aspect(&mut xsc, &mut self.prev_x_scale);
            }
            if self.sync_direction {
                sync_aspect(&mut xi, &mut self.prev_x_inverted);
            }
        }
        if self.sync_y {
            if self.sync_limits {
                sync_aspect(&mut yl, &mut self.prev_y);
            }
            if self.sync_scale {
                sync_aspect(&mut ysc, &mut self.prev_y_scale);
            }
            if self.sync_direction {
                sync_aspect(&mut yi, &mut self.prev_y_inverted);
            }
        }
        let mut k: usize = 0;
        while k < n
            invariant
                n == ps.len(),
                plots@.len() == n,
                k <= n,
                xl@.len() == n && yl@.len() == n && xsc@.len() == n,
                ysc@.len() == n && xi@.len() == n && yi@.len() == n,
                forall|j: int|
                    0 <= j < k ==> (#[trigger] plots@[j]) == (AxesState {
                        x_limits: xl@[j],
                        y_limits: yl@[j],
                        x_scale: xsc@[j],
                        y_scale: ysc@[j],
                        x_inverted: xi@[j],
                        y_inverted: yi@[j],
                    }),
            decreases n - k,
        {
            let st = AxesState {
                x_limits: xl[k],
                y_limits: yl[k],
                x_scale: xsc[k],
                y_scale: ysc[k],
                x_inverted: xi[k],
                y_inverted: yi[k],
            };
            plots.set(k, st);
            k = k + 1;
        }
        proof {
            let fs = plots@;
            assert(x_limits_of(fs) =~= xl@);
            assert(y_limits_of(fs) =~= yl@);
            assert(x_scales_of(fs) =~= xsc@);
            assert(y_scales_of(fs) =~= ysc@);
            assert(x_inverted_of(fs) =~= xi@);
            assert(y_inverted_of(fs) =~= yi@);
        }
    }
}

impl<L: Copy + PartialEq> Default for SyncAxes<L> {
    fn default() -> (s: Self)
        ensures
            s.spec_flags() == (true, true, true, true, true),
            s.is_fresh(),
    {
        Self::new()
    }
}

} // verus!
