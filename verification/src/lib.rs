//! A small ray tracer over saturating fixed-point arithmetic.
//!
//! Every quantity (coordinates, ray parameters, colour channels) is a
//! [`fixed::Fixed`]: a signed number with 32 fractional bits whose operations
//! round toward zero and saturate at the ends of the representable range.
//! Built on that are vectors, rays, spheres, a camera, the scene with its
//! recursive diffuse shading, and the pixel loop that fills a frame buffer.
//! Random numbers come from a seeded generator that the caller hands in.

pub mod fixed;
pub mod vec3;
pub mod unit_length;
pub mod ray;
pub mod hit;
pub mod sphere;
pub mod camera;
pub mod random;
pub mod material;
pub mod world;
pub mod render;
