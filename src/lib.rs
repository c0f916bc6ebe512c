//! Session registry of a tile-map game server: one shared game loop per map,
//! built on first request, and the table that numbers tile and sprite names.

pub mod game;
pub mod mappings;
pub mod registry;

pub use game::Game;
pub use mappings::{MAX_NAMES, assign_ids, assign_unique_ids, mappings_from_trimmed, unique_mappings_from_trimmed};
pub use registry::GameLoopRegistry;
