//! Axis scales.

use vstd::prelude::*;

verus! {

/// Scale of a plot axis: linear or base-10 logarithmic.
#[derive(Clone, Copy, Debug, Eq)]
pub enum Scale {
    /// Linear axis.
    Linear,
    /// Base-10 logarithmic axis.
    Log10,
}

impl PartialEq for Scale {
    fn eq(&self, other: &Self) -> (r: bool) {
        match (self, other) {
            (Scale::Linear, Scale::Linear) => true,
            (Scale::Log10, Scale::Log10) => true,
            _ => false,
        }
    }
}

impl vstd::std_specs::cmp::PartialEqSpecImpl for Scale {
    open spec fn obeys_eq_spec() -> bool {
        true
    }

    open spec fn eq_spec(&self, other: &Self) -> bool {
        *self == *other
    }
}

} // verus!
