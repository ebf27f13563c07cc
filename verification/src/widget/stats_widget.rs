//! Statistics table state: the update mode, the visible-data toggle, the
//! refresh decision and the cached rows, plus the `%g`-style trimming of
//! rendered numbers.
//!
//! The table rows are generic: the statistics themselves are computed by the
//! caller-supplied function handed to [`StatsWidget::recompute`].

use vstd::prelude::*;
use crate::text::{
    contains_char, has_char, push_char, push_str, string_of, trim_end, trimmed_end_len,
};

verus! {

/// How the table refreshes its computed values: every frame, or only on
/// request.
#[derive(Clone, Copy, Debug, PartialEq, Eq, Structural)]
pub enum UpdateMode {
    /// Recompute every frame.
    Auto,
    /// Recompute only on explicit request.
    Manual,
}

/// Column headers of the statistics table, in order.
pub open spec fn stat_column_names() -> Seq<Seq<char>> {
    seq!["min"@, "coords min"@, "max"@, "coords max"@, "COM"@, "mean"@, "std"@]
}

/// Column headers of the statistics table: min, coords min, max, coords
/// max, COM, mean, std.
pub const STAT_COLUMNS: [&'static str; 7] = ["min", "coords min", "max", "coords max", "COM", "mean", "std"];

/// The column headers are exactly [`stat_column_names`].
pub proof fn lemma_stat_columns()
    ensures
        forall|i: int| 0 <= i < 7 ==> #[trigger] STAT_COLUMNS@[i]@ == stat_column_names()[i],
{
}

/// A statistics table over a set of named items; `R` is one computed row.
pub struct StatsWidget<R> {
    update_mode: UpdateMode,
    /// Restrict the statistics to the visible data range.
    on_visible_data: bool,
    /// Pending recompute request.
    needs_update: bool,
    /// Last computed rows: `(label, stats)`.
    rows: Vec<(String, R)>,
}

impl<R> StatsWidget<R> {
    pub closed spec fn spec_update_mode(&self) -> UpdateMode {
        self.update_mode
    }

    pub closed spec fn spec_on_visible_data(&self) -> bool {
        self.on_visible_data
    }

    pub closed spec fn spec_needs_update(&self) -> bool {
        self.needs_update
    }

    pub closed spec fn spec_rows(&self) -> Seq<(String, R)> {
        self.rows@
    }

    /// Whether the next [`Self::recompute`] refreshes the rows.
    pub open spec fn will_refresh(&self) -> bool {
        self.spec_update_mode() == UpdateMode::Auto || self.spec_needs_update()
    }

    /// An empty table in auto-update mode over the full data range.
    pub fn new() -> (w: Self)
        ensures
            w.spec_update_mode() == UpdateMode::Auto,
            !w.spec_on_visible_data(),
            w.spec_needs_update(),
            w.spec_rows().len() == 0,
    {
        StatsWidget {
            update_mode: UpdateMode::Auto,
            on_visible_data: false,
            needs_update: true,
            rows: Vec::new(),
        }
    }

    /// Current update mode.
    pub fn update_mode(&self) -> (r: UpdateMode)
        ensures
            r == self.spec_update_mode(),
    {
        self.update_mode
    }

    /// Set the update mode.
    pub fn set_update_mode(&mut self, mode: UpdateMode)
        ensures
            final(self).spec_update_mode() == mode,
            final(self).spec_on_visible_data() == old(self).spec_on_visible_data(),
            final(self).spec_needs_update() == old(self).spec_needs_update(),
            final(self).spec_rows() == old(self).spec_rows(),
    {
        self.update_mode = mode;
    }

    /// Whether statistics are restricted to the visible data range.
    pub fn on_visible_data(&self) -> (r: bool)
        ensures
            r == self.spec_on_visible_data(),
    {
        self.on_visible_data
    }

    /// Set whether to restrict statistics to the visible data range; this
    /// requests a refresh.
    pub fn set_on_visible_data(&mut self, value: bool)
        ensures
            final(self).spec_on_visible_data() == value,
            final(self).spec_needs_update(),
            final(self).spec_update_mode() == old(self).spec_update_mode(),
            final(self).spec_rows() == old(self).spec_rows(),
    {
        self.on_visible_data = value;
        self.needs_update = true;
    }

    /// Request a refresh on the next [`Self::recompute`], whatever the
    /// update mode.
    pub fn request_update(&mut self)
        ensures
            final(self).spec_needs_update(),
            final(self).spec_update_mode() == old(self).spec_update_mode(),
            final(self).spec_on_visible_data() == old(self).spec_on_visible_data(),
            final(self).spec_rows() == old(self).spec_rows(),
    {
        self.needs_update = true;
    }

    /// The last computed rows, as `(label, stats)`.
    pub fn rows(&self) -> (r: &[(String, R)])
        ensures
            r@ == self.spec_rows(),
    {
        self.rows.as_slice()
    }

    /// Recompute the cached rows from `inputs` if needed: always in
    /// [`UpdateMode::Auto`], only after a request in [`UpdateMode::Manual`].
    ///
    /// Row `i` is labelled `inputs[i].0` and holds `compute(&inputs[i].1,
    /// scope)`, where `scope` is the visible data rectangle `viewport` when
    /// the visible-data toggle is on and a viewport is given, and `None`
    /// (the full data range) otherwise.
    pub fn recompute<I, V: Copy, F: Fn(&I, Option<V>) -> R>(
        &mut self,
        inputs: &[(&str, I)],
        viewport: Option<V>,
        compute: F,
    )
        requires
            forall|i: int, s: Option<V>|
                0 <= i < inputs@.len() ==> call_requires(compute, (&inputs@[i].1, s)),
        ensures
            final(self).spec_update_mode() == old(self).spec_update_mode(),
            final(self).spec_on_visible_data() == old(self).spec_on_visible_data(),
            !old(self).will_refresh() ==> final(self).spec_rows() == old(self).spec_rows()
                && final(self).spec_needs_update() == old(self).spec_needs_update(),
            old(self).will_refresh() ==> {
                let scope = if old(self).spec_on_visible_data() {
                    viewport
                } else {
                    None
                };
                &&& !final(self).spec_needs_update()
                &&& final(self).spec_rows().len() == inputs@.len()
                &&& forall|i: int|
                    0 <= i < inputs@.len() ==> (#[trigger] final(self).spec_rows()[i]).0@
                        == inputs@[i].0@ && call_ensures(
                        compute,
                        (&inputs@[i].1, scope),
                        final(self).spec_rows()[i].1,
                    )
            },
    {
        let should = self.update_mode == UpdateMode::Auto || self.needs_update;
        if !should {
            return;
        }
        let scope: Option<V> = if self.on_visible_data {
            viewport
        } else {
            None
        };
        let mut rows: Vec<(String, R)> = Vec::new();
        let mut i: usize = 0;
        while i < inputs.len()
            invariant
                i <= inputs@.len(),
                rows@.len() == i,
                forall|j: int, s: Option<V>|
                    0 <= j < inputs@.len() ==> call_requires(compute, (&inputs@[j].1, s)),
                forall|j: int|
                    0 <= j < i ==> (#[trigger] rows@[j]).0@ == inputs@[j].0@ && call_ensures(
                        compute,
                        (&inputs@[j].1, scope),
                        rows@[j].1,
                    ),
            decreases inputs@.len() - i,
        {
            let label = string_of(inputs[i].0);
            let value = compute(&inputs[i].1, scope);
            rows.push((label, value));
            i = i + 1;
        }
        self.rows = rows;
        self.needs_update = false;
    }
}

/// A pending request makes the next recompute refresh the rows whatever
/// the update mode; in auto mode every recompute refreshes.
pub proof fn lemma_request_forces_refresh<R>(w: StatsWidget<R>)
    requires
        w.spec_needs_update() || w.spec_update_mode() == UpdateMode::Auto,
    ensures
        w.will_refresh(),
{
}

/// `s` with trailing zeros and then trailing dots removed, when it holds a
/// dot (`%g`-style trimming of a fixed-point number).
pub open spec fn trimmed_fraction(s: Seq<char>) -> Seq<char> {
    if has_char(s, '.') {
        trim_end(trim_end(s, '0'), '.')
    } else {
        s
    }
}

/// Trim trailing zeros (and a dangling decimal point) from a fixed-notation
/// number, matching C `%g`.
pub fn trim_fraction(s: &str) -> (r: String)
    ensures
        r@ == trimmed_fraction(s@),
{
    if !contains_char(s, '.') {
        return string_of(s);
    }
    let n = s.unicode_len();
    assert(s@.take(n as int) =~= s@);
    let k = trimmed_end_len(s, n, '0');
    let k2 = trimmed_end_len(s, k, '.');
    s.substring_char(0, k2).to_owned()
}

/// Index of the first `e` in `s`, or `s.len()` when there is none.
pub open spec fn first_e(s: Seq<char>) -> int
    decreases s.len(),
{
    if s.len() == 0 {
        0
    } else if s[0] == 'e' {
        0
    } else {
        1 + first_e(s.skip(1))
    }
}

/// `digits` left-padded with zeros to at least two characters.
pub open spec fn pad2(digits: Seq<char>) -> Seq<char> {
    if digits.len() >= 2 {
        digits
    } else if digits.len() == 1 {
        seq!['0'] + digits
    } else {
        seq!['0', '0']
    }
}

/// The `%g`-style form of a Rust exponential rendering `mantissa e exp`: the
/// mantissa trimmed as a fraction, the exponent signed (`+` unless it starts
/// with `-`, a leading `+` dropped) and at least two digits wide. A string
/// without `e` is unchanged.
pub open spec fn trimmed_exponential(s: Seq<char>) -> Seq<char> {
    let i = first_e(s);
    if i >= s.len() {
        s
    } else {
        let mantissa = s.take(i);
        let exp = s.skip(i + 1);
        let (sign, digits) = if exp.len() > 0 && exp[0] == '-' {
            ('-', exp.skip(1))
        } else if exp.len() > 0 && exp[0] == '+' {
            ('+', exp.skip(1))
        } else {
            ('+', exp)
        };
        trimmed_fraction(mantissa) + seq!['e', sign] + pad2(digits)
    }
}

proof fn lemma_first_e_at(s: Seq<char>, i: int)
    requires
        0 <= i <= s.len(),
        forall|j: int| 0 <= j < i ==> s[j] != 'e',
        i == s.len() || s[i] == 'e',
    ensures
        first_e(s) == i,
    decreases s.len(),
{
    if s.len() > 0 && i > 0 {
        assert forall|j: int| 0 <= j < i - 1 implies s.skip(1)[j] != 'e' by {
            assert(s.skip(1)[j] == s[j + 1]);
        }
        lemma_first_e_at(s.skip(1), i - 1);
    }
}

/// Trim trailing zeros in the mantissa of a Rust `{:e}` rendering and
/// normalize the exponent to `%g` form (`e+05`, `e-05`).
pub fn trim_exponential(s: &str) -> (r: String)
    ensures
        r@ == trimmed_exponential(s@),
{
    let n = s.unicode_len();
    let mut i: usize = 0;
    while i < n && s.get_char(i) != 'e'
        invariant
            n == s@.len(),
            i <= n,
            forall|j: int| 0 <= j < i ==> s@[j] != 'e',
        decreases n - i,
    {
        i = i + 1;
    }
    proof {
        lemma_first_e_at(s@, i as int);
    }
    if i >= n {
        return string_of(s);
    }
    let mantissa = s.substring_char(0, i);
    let exp = s.substring_char(i + 1, n);
    assert(exp@ =~= s@.skip(i + 1));
    let m = exp.unicode_len();
    let (sign, digits) = if m > 0 && exp.get_char(0) == '-' {
        ('-', exp.substring_char(1, m))
    } else if m > 0 && exp.get_char(0) == '+' {
        ('+', exp.substring_char(1, m))
    } else {
        ('+', exp)
    };
    assert(m > 0 ==> exp@.skip(1) =~= exp@.subrange(1, m as int));
    let mut out = trim_fraction(mantissa);
    push_char(&mut out, 'e');
    push_char(&mut out, sign);
    let dl = digits.unicode_len();
    if dl == 0 {
        push_char(&mut out, '0');
        push_char(&mut out, '0');
    } else if dl == 1 {
        push_char(&mut out, '0');
    }
    push_str(&mut out, digits);
    assert(out@ =~= trimmed_exponential(s@));
    out
}

impl Default for UpdateMode {
    /// Automatic updates.
    fn default() -> (m: Self)
        ensures
            m == UpdateMode::Auto,
    {
        UpdateMode::Auto
    }
}

} // verus!
