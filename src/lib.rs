use vstd::prelude::*;

pub mod image_config;
pub mod progress_listener;
pub mod render;
pub mod ppm;
pub mod path;
pub mod hittable;
