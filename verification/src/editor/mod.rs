//! The text editor: a buffer with a cursor, two key dialects and the engine that runs them.
pub mod action;
pub mod buffer;
pub mod engine;
pub mod helix;
pub mod key_laws;
pub mod laws;
pub mod model;
pub mod motion_laws;
pub mod vim;

pub use action::{Key, Mode};
pub use engine::EditorEngine;
