//! A small deterministic application scheduler (systems, stages, resources,
//! events and an application-state machine), together with what a maze game
//! runs on it: the grid-maze model with its path search and drawing, an asset
//! store with explicitly counted handles, keyboard state and shader sources.

pub mod app;
pub mod archetypes;
pub mod assets;
pub mod distances;
pub mod events;
pub mod generator;
pub mod grid_maze;
pub mod grid_node;
pub mod input;
mod random;
pub mod render;
pub mod resource;
pub mod schedule;
pub mod search;
pub mod shader;
pub mod stage;
pub mod theorems;

pub use grid_node::GridNode;
pub use stage::{AppState, CoreStage, State, SystemType, STAGE_COUNT};
pub use schedule::{Selector, Step};
pub use app::{App, AppBuilder, Storage, System, SystemList, World};
pub use events::Events;
pub use resource::Resource;
pub use grid_maze::{GridDirection, GridMaze, WorldDirections};
pub use distances::Distances;
pub use assets::{AssetEvent, AssetProcessor, Assets, Handle, HandleId, LoadRequest};
pub use render::{overlay_distances, TextStyle};
pub use input::{KeyCode, Keyboard};
pub use shader::{process_shader_source, Shader};
pub use archetypes::Archetypes;
