//! Scene-to-acceleration-structure pipeline for a real-time path tracer.
//!
//! The crate turns a mutable scene (meshes, materials, textures, transforms,
//! visibility) into flat, GPU-traversable arrays: fixed-layout vertex and
//! index pools, a per-mesh bounding volume hierarchy for stackless traversal,
//! normalized texture data, and per-frame object records. Identity tables
//! keep dense, stable indices per resource kind under add/modify/remove
//! events.
//!
//! Every scalar that the renderer treats as a real number is carried as its
//! raw IEEE 754 binary32 bit pattern (`u32`); the [`binary32`] module defines
//! the order and value model for those patterns. The host shell converts
//! between native floating-point values and patterns at the boundary.

pub mod aabb;
pub mod binary32;
pub mod bvh;
pub mod data;
pub mod decode;
pub mod extract;
pub mod material;
pub mod publish;
pub mod table;
pub mod texture;

pub use binary32::{NO_INDEX, POS_INF_BITS, NEG_INF_BITS, ONE_BITS, ZERO_BITS};
