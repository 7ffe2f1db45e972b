//! The grid editor of a collaborative workspace, with its contracts proved
//! by Verus.
pub mod entities;
pub mod grid_meta_pad;
pub mod revision;
pub mod block_meta_manager;
pub mod text;
pub mod grid_editor;
pub mod event_map;
pub mod user_status;
pub mod laws;
