//! Verified core of a key-value storage engine: shard metadata, key ranges and
//! the cache of remote file segments.
pub mod bound;
pub mod buf;
pub mod codec;
pub mod del_prefixes;
pub mod file_meta;
pub mod files;
pub mod fingerprint;
pub mod ia;
pub mod key;
pub mod keyspace;
pub mod keyspace_laws;
pub mod limiter;
pub mod lists;
pub mod merge_rule;
pub mod meta;
pub mod options;
pub mod pb;
pub mod prepare;
pub mod properties;
pub mod range;
pub mod read;
pub mod schema_meta;
pub mod shard;
pub mod table_key;
pub mod text;
pub mod text_laws;
pub mod txn_locks;
pub mod vector_laws;
pub mod vectors;

use vstd::prelude::*;

verus! {

/// Number of column families of a shard.
pub const NUM_CFS: usize = 3;

/// Column family of committed data.
pub const WRITE_CF: usize = 0;

/// Column family of locks.
pub const LOCK_CF: usize = 1;

/// Column family of rollback and lock records.
pub const EXTRA_CF: usize = 2;

/// Column families whose versions are timestamps of transactions.
pub const CF_MANAGED: [bool; 3] = [true, false, true];

/// Lowest level of the column family of committed data.
pub const WRITE_CF_BOTTOM_LEVEL: u32 = 3;

/// Number of columnar levels.
pub const COLUMNAR_LEVELS: usize = 3;

} // verus!
