//! Plot toolbar button state: the profile-dimension button, the axis-scale
//! buttons and the ruler toggle, with the labels their menus show.

use vstd::prelude::*;
use crate::plot::transform::Scale;
use crate::text::{string_of, push_str};

verus! {

/// Dropdown toolbar button switching the profile dimension between 1D (one
/// profile on the visible image) and 2D (one 1D profile for each image in a
/// stack).
#[derive(Clone, Copy, Debug, PartialEq, Eq)]
pub struct ProfileToolButton {
    dimension: u8,
}

impl ProfileToolButton {
    /// The dimension is always 1 or 2.
    pub closed spec fn wf(&self) -> bool {
        self.dimension == 1 || self.dimension == 2
    }

    /// The selected dimension.
    pub closed spec fn spec_dimension(&self) -> u8 {
        self.dimension
    }

    /// A 1D-profile button.
    pub fn new() -> (b: Self)
        ensures
            b.wf(),
            b.spec_dimension() == 1,
    {
        ProfileToolButton { dimension: 1 }
    }

    /// The selected profile dimension, `1` or `2`.
    pub fn dimension(&self) -> (d: u8)
        ensures
            d == self.spec_dimension(),
            self.wf() ==> d == 1 || d == 2,
    {
        self.dimension
    }

    /// Set the profile dimension. Returns `true` if the value actually
    /// changed; out-of-range values and repeats return `false` and leave the
    /// state untouched.
    pub fn set_dimension(&mut self, dimension: u8) -> (changed: bool)
        ensures
            old(self).wf() ==> final(self).wf(),
            changed == ((dimension == 1 || dimension == 2) && dimension
                != old(self).spec_dimension()),
            final(self).spec_dimension() == if changed {
                dimension
            } else {
                old(self).spec_dimension()
            },
    {
        if (dimension == 1 || dimension == 2) && dimension != self.dimension {
            self.dimension = dimension;
            true
        } else {
            false
        }
    }

    /// The menu-action label for a dimension.
    pub fn action_label(dimension: u8) -> (s: &'static str)
        ensures
            s@ == if dimension == 2 {
                "2D profile on image stack"@
            } else {
                "1D profile on visible image"@
            },
    {
        if dimension == 2 {
            "2D profile on image stack"
        } else {
            "1D profile on visible image"
        }
    }

    /// The tooltip/status text for a dimension.
    pub fn state_tooltip(dimension: u8) -> (s: &'static str)
        ensures
            s@ == if dimension == 2 {
                "2D profile is computed, one 1D profile for each image in the stack"@
            } else {
                "1D profile is computed on visible image"@
            },
    {
        if dimension == 2 {
            "2D profile is computed, one 1D profile for each image in the stack"
        } else {
            "1D profile is computed on visible image"
        }
    }
}

/// Dropdown toolbar button choosing one axis' scale (X or Y), mirroring the
/// axis' current scale.
#[derive(Clone, Copy, Debug, PartialEq, Eq)]
pub struct AxisScaleToolButton {
    /// `true` drives the Y axis, `false` the X axis.
    y_axis: bool,
    scale: Scale,
}

/// The label words for a scale: (menu word, status word).
pub open spec fn scale_words(scale: Scale) -> (Seq<char>, Seq<char>) {
    match scale {
        Scale::Linear => ("Linear"@, "linear"@),
        Scale::Log10 => ("Logarithmic"@, "logarithmic"@),
    }
}

impl AxisScaleToolButton {
    /// Whether the button drives the Y axis.
    pub closed spec fn spec_is_y(&self) -> bool {
        self.y_axis
    }

    /// The scale shown on the button.
    pub closed spec fn spec_scale(&self) -> Scale {
        self.scale
    }

    /// The axis letter the labels use.
    pub open spec fn letter(&self) -> Seq<char> {
        if self.spec_is_y() {
            "Y"@
        } else {
            "X"@
        }
    }

    /// An X-axis scale button, initially linear.
    pub fn x_axis() -> (b: Self)
        ensures
            !b.spec_is_y(),
            b.spec_scale() == Scale::Linear,
    {
        AxisScaleToolButton { y_axis: false, scale: Scale::Linear }
    }

    /// A Y-axis scale button, initially linear.
    pub fn y_axis() -> (b: Self)
        ensures
            b.spec_is_y(),
            b.spec_scale() == Scale::Linear,
    {
        AxisScaleToolButton { y_axis: true, scale: Scale::Linear }
    }

    /// The scale currently shown on the button.
    pub fn scale(&self) -> (s: Scale)
        ensures
            s == self.spec_scale(),
    {
        self.scale
    }

    /// Mirror the axis' scale onto the button. Returns `true` if the shown
    /// state changed.
    pub fn set_scale(&mut self, scale: Scale) -> (changed: bool)
        ensures
            changed == (scale != old(self).spec_scale()),
            final(self).spec_scale() == scale,
            final(self).spec_is_y() == old(self).spec_is_y(),
    {
        if scale != self.scale {
            self.scale = scale;
            true
        } else {
            false
        }
    }

    /// The axis letter for label text: `"X"` or `"Y"`.
    pub fn axis_letter(&self) -> (s: &'static str)
        ensures
            s@ == self.letter(),
    {
        if self.y_axis {
            "Y"
        } else {
            "X"
        }
    }

    /// The menu-action label for a scale, e.g. `"Linear Y-axis"`.
    pub fn action_label(&self, scale: Scale) -> (s: String)
        ensures
            s@ == scale_words(scale).0 + " "@ + self.letter() + "-axis"@,
    {
        let name = match scale {
            Scale::Linear => "Linear",
            Scale::Log10 => "Logarithmic",
        };
        let mut s = string_of(name);
        push_str(&mut s, " ");
        push_str(&mut s, self.axis_letter());
        push_str(&mut s, "-axis");
        s
    }

    /// The tooltip/status text for a scale, e.g. `"Y-axis scale is linear"`.
    pub fn state_tooltip(&self, scale: Scale) -> (s: String)
        ensures
            s@ == self.letter() + "-axis scale is "@ + scale_words(scale).1,
    {
        let name = match scale {
            Scale::Linear => "linear",
            Scale::Log10 => "logarithmic",
        };
        let mut s = string_of(self.axis_letter());
        push_str(&mut s, "-axis scale is ");
        push_str(&mut s, name);
        s
    }
}

/// Checkable toolbar button that, while active, lets the user measure the
/// distance between two points.
#[derive(Clone, Copy, Debug, PartialEq, Eq)]
pub struct RulerToolButton {
    active: bool,
}

impl RulerToolButton {
    /// Whether the ruler is active.
    pub closed spec fn spec_active(&self) -> bool {
        self.active
    }

    /// A ruler button, inactive.
    pub fn new() -> (b: Self)
        ensures
            !b.spec_active(),
    {
        RulerToolButton { active: false }
    }

    /// Whether the ruler is active.
    pub fn is_active(&self) -> (r: bool)
        ensures
            r == self.spec_active(),
    {
        self.active
    }

    /// Set the active state.
    pub fn set_active(&mut self, active: bool)
        ensures
            final(self).spec_active() == active,
    {
        self.active = active;
    }

    /// Flip the active state and return the new value.
    pub fn toggle(&mut self) -> (r: bool)
        ensures
            r == !old(self).spec_active(),
            final(self).spec_active() == r,
    {
        self.active = !self.active;
        self.active
    }
}

impl Default for ProfileToolButton {
    fn default() -> (b: Self)
        ensures
            b.wf(),
            b.spec_dimension() == 1,
    {
        Self::new()
    }
}

impl Default for RulerToolButton {
    /// An inactive ruler.
    fn default() -> (b: Self)
        ensures
            !b.spec_active(),
    {
        Self::new()
    }
}

} // verus!
