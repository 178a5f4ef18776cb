//! The discrete core of an offline path tracer: bounding boxes and their
//! hierarchy, nearest-hit selection, the depth-bounded light transport,
//! lattice tables for gradient noise and texel addressing. Every coordinate and ray parameter is a [`vec3::Scalar`],
//! an integer ordered by `<=`; the arithmetic on the numbers that these stand
//! for is left to the implementers of [`hittable::Hittable`] and
//! [`material::Material`].

pub mod util;
pub mod vec3;
pub mod ray;
pub mod aabb;
pub mod hit_record;
pub mod hittable;
pub mod texture;
pub mod perlin;
pub mod material;
pub mod integrator;
pub mod render;
