//! A CPU path tracer over fixed-point arithmetic: camera ray generation,
//! ray–sphere intersection, recursive material scattering and PPM pixel
//! emission, each with a verified contract over an integer model of the
//! scene. Randomness comes from the `rand` crate through trusted wrappers;
//! everything that consumes it is verified for every possible draw.
pub mod fixed;
pub mod rng;
pub mod vector;
pub mod ray;
pub mod hittable;
pub mod sphere;
pub mod material;
pub mod hittable_list;
pub mod camera;
pub mod color;
pub mod render;
