//! Verified control core of a Monte-Carlo path tracer for scenes of spheres.
//!
//! The numeric kernels of a path tracer work on floating-point vectors. What
//! decides the shape of a render is discrete: which seed every pixel and every
//! sample gets, in which order pixels are scanned and written, which of the
//! candidate intersections is the nearest one, when a light path ends, and how
//! the quantised image is framed as text. Those parts live here, each with a
//! contract that pins its result down.

pub mod list_hitable;
pub mod material;
pub mod param;
pub mod path;
pub mod ppm;
pub mod render;
pub mod sphere_hitable;
pub mod util;
