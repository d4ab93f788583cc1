//! A single-region shared-memory transport with a verified core.
//!
//! One region holds a header, a ring of frames from the producer to the consumer, a ring
//! of returned buffers from the consumer to the producer, and an arena with the payloads.
//! Everything that is decided or computed about a region is in this crate, as functions
//! over the header's words and the bytes of the region. Mapping the region, loading and
//! storing its words, reading clocks and sleeping are left to the caller.

pub mod align;
pub mod allocator;
pub mod demo;
pub mod element;
pub mod platform;
pub mod relay;
pub mod sink;
pub mod source;
pub mod text;
pub mod transport;
