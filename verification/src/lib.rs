//! Storage-and-search core of a vector-search engine: a local shard built from
//! segments (vector storage, payload storage, payload index, id tracker), a
//! write-ahead log, a segment holder with deduplication, and optimizers that
//! reshape segments through proxy segments.
//!
//! Vector components are fixed-point integers (milli-units), so that distances
//! and scores are exact integer arithmetic and every search result is proved
//! against its specification.

pub mod types;
pub mod errors;
pub mod id_tracker;
pub mod assoc;
pub mod payload;
pub mod vector_storage;
pub mod payload_storage;
pub mod payload_index;
pub mod vector_index;
pub mod segment;
pub mod segment_constructor;
pub mod external;
pub mod settings;
pub mod api_models;
pub mod holder;
pub mod wal;
pub mod shard;
pub mod laws;
pub mod proxy;
pub mod optimizer;
