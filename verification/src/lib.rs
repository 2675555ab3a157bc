//! Verified core of the Entangled Worlds multiplayer mod: the pixel and chunk
//! encodings used to synchronise the terrain, the world model that tracks what
//! changed, the game-side cache of entity data, and the small value types and
//! parsers the game-side API relies on.
pub mod api;
pub mod asset;
pub mod basic_types;
pub mod chunk;
pub mod cli;
pub mod color;
pub mod component_buffer;
pub mod components;
pub mod des;
pub mod des_manager;
pub mod encoding;
pub mod entity_cache;
pub mod game_effects;
pub mod game_layout;
pub mod heap;
pub mod launcher;
pub mod messages;
pub mod mod_files;
pub mod noita_types;
pub mod poly_gid;
pub mod settings;
pub mod std_vec;
pub mod tangled;
pub mod text;
pub mod world_model;
pub mod world_sync;
