//! Driver logic for SRIX4K contactless memory tags.
//!
//! The crate encodes the three commands a tag in ready state accepts, decodes
//! its fixed-width replies, drives a session with one tag over a transport
//! that the caller supplies, and keeps a write-back cache of the tag's blocks
//! so that callers work on ordinary values and flush only what they changed.

pub mod codec;
pub mod mem;
pub mod transport;
pub mod tag;
pub mod model;
pub mod laws;
pub mod cached;

pub use codec::Command;
pub use codec::FramingError;
pub use tag::Error;
pub use tag::Srix4k;
pub use transport::BaudRate;
pub use transport::Modulation;
pub use transport::ModulationType;
pub use transport::Timeout;
pub use transport::Transport;
pub use cached::Srix4kCached;
