//! A headless ray-tracing kernel over fixed-point arithmetic.
//!
//! The renderer converts a declarative scene description (spherical
//! primitives with Phong materials, point lights, camera placement) into
//! per-pixel colors by recursive ray tracing: each ray is intersected with
//! every sphere, the nearest hit is shaded with ambient/diffuse/specular
//! terms and hard shadows, and reflection/transmission rays are followed
//! up to a fixed depth budget.
//!
//! All quantities are scaled integers (`fixed::FX_ONE` units per 1.0), so
//! every arithmetic step has an exact mathematical meaning and every public
//! function carries a contract pinning its result down.

pub mod fixed;
pub mod vector;
pub mod ray;
pub mod material;
pub mod sphere;
pub mod scene;
pub mod tracer;
pub mod codec;
