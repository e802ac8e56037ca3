//! A log ingestion service's core: an inverted field:value index with
//! time-watermarked lookup, a key/value entry store, the engine that keeps
//! the two in step, and the byte-level rules of its connection protocol.

pub mod bytes;
pub mod cluster;
pub mod config;
pub mod daemon;
pub mod index;
pub mod json;
pub mod log_storage;
pub mod protocol;
pub mod shared;
pub mod storage;
