//! An offline path-tracing renderer with a verified core.
//!
//! Geometry, materials and the tile scheduler work on fixed-point
//! coordinates: an `i64` raw value `x` stands for the real number
//! `x / SCALE`.  All arithmetic on raw values is exact integer
//! arithmetic with truncating division, so every contract in this
//! crate is stated over plain integers.

pub mod fixed;
pub mod vec3;
pub mod ray;
pub mod primitive_traits;
pub mod primitive;
pub mod rng;
pub mod bvh;
pub mod texture;
pub mod material;
pub mod raw;
pub mod tile;
pub mod camera;
pub mod scene;
pub mod tracer;
pub mod ref_scene_1;
pub mod ref_scene_0;
