//! The sink element: its settings, the blocks that it lends to upstream, and what it
//! does with each frame.

pub mod lending;
pub mod render;
pub mod settings;
