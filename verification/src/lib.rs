//! Core logic of a small real-time rendering framework: a texture-atlas
//! glyph cache with LRU-based space reclamation, and the per-frame
//! instance-batch diffing protocol shared by the concrete renderers.
//!
//! GPU resources themselves (textures, buffers, pipelines) live outside this
//! crate; the types and functions here make every sizing, placement, caching
//! and reconciliation decision, and state those decisions in their contracts.

pub mod atlas;
pub mod batch;
pub mod geom;
pub mod glyph;
pub mod lru_store;
pub mod packer;
pub mod render;
pub mod text;
