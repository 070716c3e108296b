//! The deciding core of a Monte-Carlo path tracer.
//!
//! A renderer computes with numbers and decides by comparing them.  This
//! library holds the decisions: bounding boxes and their union, the
//! bounding-volume hierarchy and its traversal, the rules by which spheres
//! and rectangles accept an intersection, what the materials do with a ray,
//! the lattice of the noise generator, texel lookup, the bounce rule of the
//! integrator and the pixel buffer.  Numbers reach it as ordered codes (see
//! `codes`), scene objects as handles with an index into the caller's scene,
//! and the arithmetic of intersection through the `Hittable` capability.

pub mod aabb;
pub mod aarect;
pub mod bvh;
pub mod codes;
pub mod hittable;
pub mod hittable_list;
pub mod integrator;
pub mod materials;
pub mod objects;
pub mod output_buffer;
pub mod perlin;
pub mod texture;
pub mod utils;
