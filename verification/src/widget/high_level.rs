//! Plot item families and profile reductions shared by the widgets.

use vstd::prelude::*;

verus! {

/// Family of a plot item.
#[derive(Clone, Copy, Debug, PartialEq, Eq, Structural)]
pub enum PlotItemKind {
    /// A curve (polyline with optional markers).
    Curve,
    /// An image.
    Image,
    /// A scatter of valued points.
    Scatter,
    /// A histogram.
    Histogram,
    /// A point or line marker.
    Marker,
    /// A mask image.
    Mask,
    /// A triangle mesh.
    Triangles,
    /// A drawn shape.
    Shape,
}

/// Reduction applied across the band of a profile.
#[derive(Clone, Copy, Debug, PartialEq, Eq, Structural)]
pub enum ProfileMethod {
    /// Average over the band.
    Mean,
    /// Sum over the band.
    Sum,
}

} // verus!
