//! The relay: a daemon that feeds a sink from one pipeline while clients are connected,
//! and from another, if there is one, while none is.

pub mod args;
pub mod clients;
pub mod lines;
pub mod listen;
pub mod pipeline;
