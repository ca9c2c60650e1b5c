//! A persistent note-storage library: notes, tags and note versions live in a
//! durable ordered key-value engine, keyed by identifiers from one shared
//! monotonic allocator. Every record is serialized through a verified codec,
//! and every operation on the store carries a contract describing exactly how
//! it changes the store's contents.

pub mod codec;
pub mod engine;
pub mod laws;
pub mod queries;
pub mod store;
pub mod tags;
pub mod types;
pub mod utils;
pub mod versions;
