//! Simulation core of a turn-based grid dungeon: map layout, field of view,
//! the per-turn occupancy index and chase behaviour of monsters.

pub mod components;
pub mod connectivity;
pub mod grid;
pub mod layout;
pub mod map;
pub mod map_builder;
pub mod map_indexing_system;
pub mod monster_ai_system;
pub mod movement;
pub mod player;
pub mod random;
pub mod rect;
pub mod sight;
pub mod sorted;
pub mod spawner;
pub mod state;
pub mod visibility_system;

pub use crate::components::{Actor, MonsterKind, Position, Role, Viewshed};
pub use crate::map::{TileMap, TileType};
pub use crate::map_builder::MapConfig;
pub use crate::player::PlayerAction;
pub use crate::rect::Rect;
pub use crate::state::{RunState, State};
