//! Colormap catalog names and the autoscale modes of a colormap range.

use vstd::prelude::*;

verus! {

/// A colormap of the catalog.
#[derive(Clone, Copy, Debug, PartialEq, Eq, Structural)]
pub enum ColormapName {
    /// Black to white.
    Gray,
    /// White to black.
    ReversedGray,
    /// Blue to red through white.
    Temperature,
    /// Black to red.
    Red,
    /// Black to green.
    Green,
    /// Black to blue.
    Blue,
    /// Blue to red through cyan and yellow.
    Jet,
    /// Perceptually uniform, purple to yellow.
    Viridis,
    /// Perceptually uniform, black to light yellow through magenta.
    Magma,
    /// Perceptually uniform, black to pale yellow through red.
    Inferno,
    /// Perceptually uniform, blue to yellow through pink.
    Plasma,
}

/// How a colormap's range is chosen from the data.
#[derive(Clone, Copy, Debug, PartialEq, Eq, Structural)]
pub enum AutoscaleMode {
    /// The data's minimum and maximum.
    MinMax,
    /// Mean ± three standard deviations.
    Stddev3,
    /// Two percentiles of the data.
    Percentile,
}

} // verus!
