pub mod gpu_curve;
pub mod jpeg;
pub mod gpu_scene3d;
pub mod save;
