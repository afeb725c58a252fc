//! Tiled-map ingestion and world synthesis for a 2D tile game.
//!
//! The crate turns a decoded map document into a validated [`MapModel`],
//! resolves which tilesets get a texture, and derives, from the asset events
//! of one tick, the batches of tile and collider entities that replace the
//! previous ones. Every function is a pure transition on plain values: the
//! engine that owns the real entities replays the returned mutations.

pub mod animation;
pub mod collider;
pub mod laws;
pub mod loader;
pub mod model;
pub mod platform;
pub mod properties;
pub mod registry;
pub mod scalar;
pub mod screens;
pub mod synth;
pub mod world;

pub use collider::{Hitbox, RigidBodyKind, TiledColliderObject};
pub use loader::{TiledLoader, TiledMap};
pub use model::{MapModel, ParseError};
pub use synth::{process_loaded_maps, TiledLayersStorage, TiledMapBundle, TiledMapHandle};
pub use registry::{ChunkSize, Tilemaps};
pub use world::World;
