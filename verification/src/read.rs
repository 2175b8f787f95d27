//! Reading a shard.
pub mod blocks;
pub mod change_set;
pub mod columnar;
pub mod get;
pub mod iter;
pub mod laws;
pub mod mem_data;
pub mod mem_rows;
pub mod prefix;
pub mod remote_segments;
pub mod rows;
pub mod snap;
pub mod source_laws;
pub mod scan_laws;
pub mod sources;
pub mod txn_file;
pub mod value;
