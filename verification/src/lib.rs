//! The run-time core of a turn-based, grid-world survival and crafting game:
//! an entity-component world, the queues and systems that resolve pickups and
//! crafting, the activity log, and the modal user-interface state with the
//! layout of its two panels.

pub mod components;
pub mod craft;
pub mod gui;
pub mod logs;
pub mod pickup;
pub mod player;
pub mod state;
pub mod world;

pub use components::{Name, Position, Renderable};
pub use world::{Entity, World};
