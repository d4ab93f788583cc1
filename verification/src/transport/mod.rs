//! The shared region: its header, its two rings of descriptors and its payload arena.
//!
//! The producer publishes frames through the ready ring; the consumer gives their
//! buffers back through the recycle ring. Both ends work on a snapshot of the
//! header words and on the bytes of the rings and of the arena.

pub mod books;
pub mod clock;
pub mod consumer_calls;
pub mod desc;
pub mod header;
pub mod laws;
pub mod producer_calls;
pub mod reader;
pub mod ring;
pub mod writer;

pub use crate::transport::books::AllocLease;
pub use crate::transport::desc::{ReadyDesc, ReceivedDesc, RecycleDesc};
pub use crate::transport::header::{SharedHeader, TransportConfig, MAGIC};
pub use crate::transport::header::{VERSION_MAJOR, VERSION_MINOR};
pub use crate::transport::reader::{Reader, ReceivedBuffer, TimelineSnapshot};
pub use crate::transport::writer::Writer;
