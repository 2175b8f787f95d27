//! Shards: their tables by level, and what is decided about them.
pub mod access;
pub mod blobs;
pub mod block_laws;
pub mod builder;
pub mod data;
pub mod ingest;
pub mod key_laws;
pub mod laws;
pub mod levels;
pub mod load;
pub mod merge;
pub mod ops;
pub mod part_laws;
pub mod priority;
pub mod priority_laws;
pub mod size_laws;
pub mod split;
pub mod split_keys;
pub mod state;
pub mod stats;
pub mod step_laws;
