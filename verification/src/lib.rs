//! Shared world state of the viewer: the object graph the simulator streams,
//! the avatars and their names, the build tool's selection, the derender
//! blacklist, the RLV console and the small vocabularies every layer of the
//! world agrees on — each kept as plain data with the operations that move it.

pub mod ids;
pub mod object_flags;
pub mod collections;
pub mod object_graph;
pub mod world_state;
pub mod text;
pub mod settings;
pub mod rlv;
pub mod world_vocabulary;
pub mod edit_selection;
pub mod schedule_order;
pub mod object_components;
pub mod terrain;
pub mod world_scoped;
pub mod ui_texture;
pub mod ui_tab;
