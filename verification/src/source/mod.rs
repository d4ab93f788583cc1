//! The source element: its settings, how it follows the producer's timeline, and how it
//! gets each frame.

pub mod create;
pub mod settings;
pub mod timeline;
