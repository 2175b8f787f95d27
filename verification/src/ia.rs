//! Infrequent access: files that are read from remote segment by segment.
pub mod auto_file;
pub mod cache;
pub mod config;
pub mod fifo;
pub mod file;
pub mod filename;
pub mod gc;
pub mod laws;
pub mod manager;
pub mod memory_store;
pub mod multi_read;
pub mod queue;
pub mod reader;
pub mod segment;
pub mod shared_map;
