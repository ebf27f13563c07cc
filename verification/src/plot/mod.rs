pub mod transform;
pub mod colormap;
