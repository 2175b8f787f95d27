//! Values and what is told of a read.
use bytes::Bytes;
use vstd::prelude::*;

verus! {

/// When a value was written.
#[derive(Clone, Copy, Debug, PartialEq, Eq, Structural)]
pub struct UserMeta {
    /// Start of the transaction.
    pub start_ts: u64,
    /// When it was committed.
    pub commit_ts: u64,
}

impl UserMeta {
    /// The times.
    pub fn new(start_ts: u64, commit_ts: u64) -> (res: Self)
        ensures
            res == (UserMeta { start_ts, commit_ts }),
    {
        UserMeta { start_ts, commit_ts }
    }
}

/// A version of a value.
#[derive(Debug)]
pub struct Value {
    /// Its version.
    pub version: u64,
    /// Flags.
    pub meta: u8,
    /// It says that the key is deleted.
    pub deleted: bool,
    /// When it was written, if that is known.
    pub user_meta: Option<UserMeta>,
    /// The blob table that holds its bytes, where they are not in `value`.
    pub blob: Option<u64>,
    /// Its bytes.
    pub value: Bytes,
}

impl Clone for Value {
    fn clone(&self) -> (res: Self)
        ensures
            res == *self,
    {
        Value {
            version: self.version,
            meta: self.meta,
            deleted: self.deleted,
            user_meta: self.user_meta,
            blob: self.blob,
            value: self.value.clone(),
        }
    }
}

/// How many places were looked at for a value.
#[derive(Clone, Copy, Debug, PartialEq, Eq, Structural)]
pub struct AccessPath {
    /// Memory tables.
    pub mem_table: u8,
    /// Tables of level 0.
    pub l0: u8,
    /// Lower levels.
    pub ln: u8,
}

impl Default for AccessPath {
    fn default() -> (res: Self)
        ensures
            res == (AccessPath { mem_table: 0, l0: 0, ln: 0 }),
    {
        AccessPath { mem_table: 0, l0: 0, ln: 0 }
    }
}

/// A value that is kept for later reads.
#[derive(Debug)]
pub struct ValueCacheValue {
    /// Start of the transaction.
    pub start_ts: u64,
    /// Its version.
    pub version: u64,
    /// Its bytes.
    pub value: Bytes,
}

/// What a read gives. There is a path also where there is no value.
#[derive(Debug)]
pub struct Item {
    /// The value, if there is one.
    pub val: Option<Value>,
    /// How many places were looked at.
    pub path: AccessPath,
}

impl Item {
    /// No value, and no place looked at.
    pub fn new() -> (res: Self)
        ensures
            res.val is None,
            res.path == (AccessPath { mem_table: 0, l0: 0, ln: 0 }),
    {
        Item { val: None, path: AccessPath::default() }
    }

    /// A value that was kept. It was committed at its version.
    pub fn from_cached_value(cached: &ValueCacheValue) -> (res: Self)
        ensures
            res.val == Some(
                Value {
                    version: cached.version,
                    meta: 0,
                    deleted: false,
                    user_meta: Some(
                        UserMeta { start_ts: cached.start_ts, commit_ts: cached.version },
                    ),
                    blob: None,
                    value: cached.value,
                },
            ),
            res.path == (AccessPath { mem_table: 0, l0: 0, ln: 0 }),
    {
        Item {
            val: Some(
                Value {
                    version: cached.version,
                    meta: 0,
                    deleted: false,
                    user_meta: Some(UserMeta::new(cached.start_ts, cached.version)),
                    blob: None,
                    value: cached.value.clone(),
                },
            ),
            path: AccessPath::default(),
        }
    }
}

impl Item {
    /// Puts in the bytes that a blob table holds.
    pub fn fill_in_blob(&mut self, blob: Bytes)
        ensures
            final(self).path == old(self).path,
            final(self).val == (match old(self).val {
                Some(val) => if val.blob is Some {
                    Some(Value { blob: None, value: blob, ..val })
                } else {
                    Some(val)
                },
                None => None,
            }),
    {
        if let Some(val) = &self.val {
            if val.blob.is_some() {
                self.val = Some(
                    Value {
                        version: val.version,
                        meta: val.meta,
                        deleted: val.deleted,
                        user_meta: val.user_meta,
                        blob: None,
                        value: blob,
                    },
                );
            }
        }
    }
}

impl Default for Item {
    fn default() -> (res: Self)
        ensures
            res.val is None,
            res.path == (AccessPath { mem_table: 0, l0: 0, ln: 0 }),
    {
        Item::new()
    }
}

} // verus!
