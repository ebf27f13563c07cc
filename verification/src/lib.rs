//! Verified core of a plotting toolkit: the state machines, selection rules,
//! label builders and the baseline JPEG container/entropy coder behind the
//! plot widgets. Everything here is integer, boolean or text logic; pixel
//! geometry and floating-point formatting live in the companion application
//! crate.

pub mod plot;
pub mod render;
pub mod text;
pub mod widget;
