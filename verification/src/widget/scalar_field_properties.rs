//! The properties panel of a 3D scalar field view: the colormap shown in its
//! picker and the autoscale mode of its "Autoscale" button.

use vstd::prelude::*;
use crate::plot::colormap::{AutoscaleMode, ColormapName};

verus! {

/// State of the properties panel of a scalar field view.
pub struct ScalarFieldProperties {
    /// The colormap name shown in the picker.
    colormap_name: ColormapName,
    /// The autoscale mode used by the "Autoscale" button.
    autoscale_mode: AutoscaleMode,
}

impl ScalarFieldProperties {
    pub closed spec fn spec_colormap_name(&self) -> ColormapName {
        self.colormap_name
    }

    pub closed spec fn spec_autoscale_mode(&self) -> AutoscaleMode {
        self.autoscale_mode
    }

    /// A panel showing the viridis colormap, autoscaling over min/max.
    pub fn new() -> (p: Self)
        ensures
            p.spec_colormap_name() == ColormapName::Viridis,
            p.spec_autoscale_mode() == AutoscaleMode::MinMax,
    {
        ScalarFieldProperties {
            colormap_name: ColormapName::Viridis,
            autoscale_mode: AutoscaleMode::MinMax,
        }
    }

    /// The colormap name currently shown in the picker.
    pub fn colormap_name(&self) -> (r: ColormapName)
        ensures
            r == self.spec_colormap_name(),
    {
        self.colormap_name
    }

    /// The autoscale mode of the "Autoscale" button.
    pub fn autoscale_mode(&self) -> (r: AutoscaleMode)
        ensures
            r == self.spec_autoscale_mode(),
    {
        self.autoscale_mode
    }
}

impl Default for ScalarFieldProperties {
    fn default() -> (p: Self)
        ensures
            p.spec_colormap_name() == ColormapName::Viridis,
            p.spec_autoscale_mode() == AutoscaleMode::MinMax,
    {
        Self::new()
    }
}

} // verus!
