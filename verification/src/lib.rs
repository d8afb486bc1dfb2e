//! The asset pipeline of a game engine: where imported artifacts are stored, which asset
//! sources still need importing, how a scene hierarchy is flattened, and how meshes are
//! split into meshlets.

pub mod asset_database;
pub mod components;
pub mod importer;
pub mod loader;
pub mod materials;
pub mod mesh_optimization;
pub mod meshes;
pub mod meshlets;
pub mod paths;
pub mod scene;
pub mod serializers;
pub mod shared;
pub mod text;
pub mod uuid_text;
