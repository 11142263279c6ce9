//! Chunk streaming core of a voxel world: dense chunks and their byte layout,
//! a block registry, a write-through chunk store with an LRU cache, terrain
//! fill, greedy-mesh bookkeeping, the per-chunk task lifecycle and the
//! distance-based load manager.
pub mod block;
pub mod chunk;
pub mod coords;
pub mod codec;
pub mod registry;
pub mod cache;
pub mod store;
pub mod terrain;
pub mod mesh;
pub mod pipeline;
pub mod manager;
pub mod universe;
pub mod materials;
