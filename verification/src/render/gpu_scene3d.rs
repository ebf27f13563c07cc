//! 3D scene marker shapes and image sampling modes, with the ids the scene
//! shaders use.

use vstd::prelude::*;

verus! {

/// Point-sprite marker shape of a 3D scatter.
#[derive(Clone, Copy, Debug, PartialEq, Eq, Structural)]
pub enum PointMarker {
    /// `'o'` — filled circle.
    Circle,
    /// `'d'` — diamond.
    Diamond,
    /// `'s'` — square (the full sprite).
    Square,
    /// `'+'` — plus.
    Plus,
    /// `'x'` — diagonal cross.
    Cross,
    /// `'*'` — asterisk.
    Asterisk,
    /// `'_'` — horizontal line.
    HLine,
    /// `'|'` — vertical line.
    VLine,
}

/// The marker id each shape is drawn with, in declaration order.
pub open spec fn marker_id(m: PointMarker) -> u32 {
    match m {
        PointMarker::Circle => 0,
        PointMarker::Diamond => 1,
        PointMarker::Square => 2,
        PointMarker::Plus => 3,
        PointMarker::Cross => 4,
        PointMarker::Asterisk => 5,
        PointMarker::HLine => 6,
        PointMarker::VLine => 7,
    }
}

impl PointMarker {
    /// The `marker` id handed to the GPU.
    pub fn id(self) -> (r: u32)
        ensures
            r == marker_id(self),
    {
        match self {
            PointMarker::Circle => 0,
            PointMarker::Diamond => 1,
            PointMarker::Square => 2,
            PointMarker::Plus => 3,
            PointMarker::Cross => 4,
            PointMarker::Asterisk => 5,
            PointMarker::HLine => 6,
            PointMarker::VLine => 7,
        }
    }
}

/// Marker ids are distinct and below eight.
pub proof fn lemma_marker_ids_distinct(a: PointMarker, b: PointMarker)
    ensures
        marker_id(a) < 8,
        a != b ==> marker_id(a) != marker_id(b),
{
}

/// Texture sampling for an image layer.
#[derive(Clone, Copy, Debug, PartialEq, Eq, Structural)]
pub enum ImageInterpolation {
    /// Nearest-neighbour — crisp pixels.
    Nearest,
    /// Bilinear — smooth.
    Linear,
}

impl Default for PointMarker {
    /// The filled circle.
    fn default() -> (m: Self)
        ensures
            m == PointMarker::Circle,
            marker_id(m) == 0,
    {
        PointMarker::Circle
    }
}

impl Default for ImageInterpolation {
    /// Nearest-neighbour sampling.
    fn default() -> (i: Self)
        ensures
            i == ImageInterpolation::Nearest,
    {
        ImageInterpolation::Nearest
    }
}

} // verus!
