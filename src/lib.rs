//! A chunked voxel world: block storage, terrain filling, sky-light flood
//! fill, surface meshing with ambient occlusion, voxel raycasting and a
//! player body that moves with gravity and collision against the grid.

pub mod coords;
pub mod chunk;
pub mod lighting;
pub mod mesh;
pub mod world;
pub mod raycast;
pub mod player;
pub mod hotbar;

pub use coords::{world_to_local, BlockPos, ChunkPos, FixedVec3, CHUNK_DIMENSION, CHUNK_HEIGHT, CHUNK_VOLUME, SUBUNITS};
pub use chunk::Chunk;
pub use lighting::sky_light;
pub use mesh::{build_mesh, ChunkMesh, Face, MeshFace, MeshVertex};
pub use world::{World, WorldError};
pub use raycast::BlockRaycast;
pub use player::{MoveKeys, Player, PLAYER_HEIGHT};
pub use hotbar::{scroll_hotbar, HOTBAR_SLOTS};
