//! Streams an unbounded voxel world around a moving viewpoint.
//!
//! The crate decides which chunks of space should exist (`select`), generates
//! their voxel contents deterministically from a seed (`generate`, `world`),
//! turns generated chunks into renderable surfaces with face culling between
//! solid voxels (`mesh`), tests chunks against a view frustum (`frustum`), and
//! runs the per-tick generate/load/unload queue state machine (`loader`).
//! A host renderer drives the pipeline once per frame and materializes the
//! surfaces it hands back.

pub mod chunk_data;
pub mod coord;
pub mod frustum;
pub mod generate;
pub mod loader;
pub mod mesh;
pub mod select;
pub mod vec3;
pub mod vecmap;
pub mod world;
