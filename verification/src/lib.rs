//! Exact-arithmetic core of a stochastic path-tracing renderer.
//!
//! The renderer's geometric and structural logic — axis-aligned bounding
//! boxes, the bounding-volume hierarchy, interval clipping, tone mapping,
//! permutation tables and mesh index resolution — is modelled here over
//! exact integer coordinates and proved correct. The floating-point
//! sampling pipeline that drives it lives outside the verified core and
//! feeds it plain integer data (order-preserving key images of its
//! coordinates, 8-bit pixel channels, face index lists).

pub mod aabb;
pub mod bvh;
pub mod color;
pub mod hit_record;
pub mod hittable;
pub mod image_texture;
pub mod interval;
pub mod material;
pub mod mesh;
pub mod perlin;
pub mod ray;
pub mod vec3;
