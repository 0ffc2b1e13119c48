//! The voxel-world core of a block game: block storage in chunks, sunlight
//! propagation through them, greedy meshing of chunk slices into packed quads,
//! the queue of pending edits and recomputations, and the bookkeeping of the
//! worker pools that generate and mesh terrain in the background.

pub mod vector;
pub mod blocks;
pub mod surfacevertex;
pub mod texture_loader;
pub mod chunk;
pub mod world;
pub mod light_measure;
pub mod lighting;
pub mod light_laws;
pub mod chunkactionqueue;
pub mod nearest;
pub mod chunk_manager;
pub mod worker_threads;
pub mod structure_loader;
pub mod binarymesher;
pub mod greedy_laws;
pub mod mesh_laws;
pub mod box_laws;
pub mod halo;
pub mod mesher;
