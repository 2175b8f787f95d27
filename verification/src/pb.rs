//! Messages that change a shard.
//!
//! Each message is plain data. What follows from other data that the library
//! does not read (table ids of keys, transaction file references, storage class
//! specifications) is part of the message, next to the bytes that it was read
//! from.
use bytes::Bytes;
use vstd::prelude::*;

use crate::buf::content;

verus! {

/// The lowest and the highest table id of the keys of a file or a shard.
#[derive(Clone, Copy, Debug, PartialEq, Eq, Structural)]
pub struct TableIdSpan {
    /// Lowest table id.
    pub min: i64,
    /// Highest table id.
    pub max: i64,
}

impl Default for TableIdSpan {
    fn default() -> (res: Self)
        ensures
            res.min == i64::MIN,
            res.max == i64::MAX,
    {
        TableIdSpan {
            min: i64::MIN,
            max: i64::MAX,
        }
    }
}

/// A new table of level 0.
#[derive(Debug, PartialEq, Eq)]
pub struct L0Create {
    /// File id.
    pub id: u64,
    /// Lowest inner key.
    pub smallest: Bytes,
    /// Highest inner key.
    pub biggest: Bytes,
    /// Size of the file.
    pub size: u32,
    /// Table ids of its keys.
    pub table_ids: TableIdSpan,
}

impl Clone for L0Create {
    fn clone(&self) -> (res: Self)
        ensures
            res == *self,
    {
        L0Create {
            id: self.id,
            smallest: self.smallest.clone(),
            biggest: self.biggest.clone(),
            size: self.size,
            table_ids: self.table_ids,
        }
    }
}

impl Default for L0Create {
    fn default() -> (res: Self)
        ensures
            res.id == 0,
            content(res.smallest) == Seq::<u8>::empty(),
            content(res.biggest) == Seq::<u8>::empty(),
            res.size == 0,
            res.table_ids == (TableIdSpan { min: i64::MIN, max: i64::MAX }),
    {
        L0Create {
            id: 0,
            smallest: Bytes::new(),
            biggest: Bytes::new(),
            size: 0,
            table_ids: TableIdSpan { min: i64::MIN, max: i64::MAX },
        }
    }
}

/// A new table of a lower level.
#[derive(Debug, PartialEq, Eq)]
pub struct TableCreate {
    /// File id.
    pub id: u64,
    /// Level.
    pub level: u32,
    /// Column family.
    pub cf: i32,
    /// Lowest inner key.
    pub smallest: Bytes,
    /// Highest inner key.
    pub biggest: Bytes,
    /// Where the table meta begins in the file.
    pub meta_offset: u32,
    /// Table ids of its keys.
    pub table_ids: TableIdSpan,
}

impl Clone for TableCreate {
    fn clone(&self) -> (res: Self)
        ensures
            res == *self,
    {
        TableCreate {
            id: self.id,
            level: self.level,
            cf: self.cf,
            smallest: self.smallest.clone(),
            biggest: self.biggest.clone(),
            meta_offset: self.meta_offset,
            table_ids: self.table_ids,
        }
    }
}

impl Default for TableCreate {
    fn default() -> (res: Self)
        ensures
            res.id == 0,
            res.level == 0,
            res.cf == 0,
            content(res.smallest) == Seq::<u8>::empty(),
            content(res.biggest) == Seq::<u8>::empty(),
            res.meta_offset == 0,
            res.table_ids == (TableIdSpan { min: i64::MIN, max: i64::MAX }),
    {
        TableCreate {
            id: 0,
            level: 0,
            cf: 0,
            smallest: Bytes::new(),
            biggest: Bytes::new(),
            meta_offset: 0,
            table_ids: TableIdSpan { min: i64::MIN, max: i64::MAX },
        }
    }
}

/// A new blob table.
#[derive(Debug, PartialEq, Eq)]
pub struct BlobCreate {
    /// File id.
    pub id: u64,
    /// Lowest inner key.
    pub smallest: Bytes,
    /// Highest inner key.
    pub biggest: Bytes,
    /// Where the table meta begins in the file.
    pub meta_offset: u32,
    /// Table ids of its keys.
    pub table_ids: TableIdSpan,
}

impl Clone for BlobCreate {
    fn clone(&self) -> (res: Self)
        ensures
            res == *self,
    {
        BlobCreate {
            id: self.id,
            smallest: self.smallest.clone(),
            biggest: self.biggest.clone(),
            meta_offset: self.meta_offset,
            table_ids: self.table_ids,
        }
    }
}

impl Default for BlobCreate {
    fn default() -> (res: Self)
        ensures
            res.id == 0,
            content(res.smallest) == Seq::<u8>::empty(),
            content(res.biggest) == Seq::<u8>::empty(),
            res.meta_offset == 0,
            res.table_ids == (TableIdSpan { min: i64::MIN, max: i64::MAX }),
    {
        BlobCreate {
            id: 0,
            smallest: Bytes::new(),
            biggest: Bytes::new(),
            meta_offset: 0,
            table_ids: TableIdSpan { min: i64::MIN, max: i64::MAX },
        }
    }
}

/// A new columnar file.
#[derive(Debug, PartialEq, Eq)]
pub struct ColumnarCreate {
    /// File id.
    pub id: u64,
    /// Columnar level.
    pub level: u32,
    /// Lowest inner key.
    pub smallest: Bytes,
    /// Highest inner key.
    pub biggest: Bytes,
    /// Where the table meta begins in the file.
    pub meta_offset: u32,
    /// Version of the data that the file was made from.
    pub snap_version: u64,
    /// Table ids of its keys.
    pub table_ids: TableIdSpan,
}

impl Clone for ColumnarCreate {
    fn clone(&self) -> (res: Self)
        ensures
            res == *self,
    {
        ColumnarCreate {
            id: self.id,
            level: self.level,
            smallest: self.smallest.clone(),
            biggest: self.biggest.clone(),
            meta_offset: self.meta_offset,
            snap_version: self.snap_version,
            table_ids: self.table_ids,
        }
    }
}

impl Default for ColumnarCreate {
    fn default() -> (res: Self)
        ensures
            res.id == 0,
            res.level == 0,
            content(res.smallest) == Seq::<u8>::empty(),
            content(res.biggest) == Seq::<u8>::empty(),
            res.meta_offset == 0,
            res.snap_version == 0,
            res.table_ids == (TableIdSpan { min: i64::MIN, max: i64::MAX }),
    {
        ColumnarCreate {
            id: 0,
            level: 0,
            smallest: Bytes::new(),
            biggest: Bytes::new(),
            meta_offset: 0,
            snap_version: 0,
            table_ids: TableIdSpan { min: i64::MIN, max: i64::MAX },
        }
    }
}

/// A file of a vector index.
#[derive(Debug, PartialEq, Eq)]
pub struct VectorIndexFile {
    /// File id.
    pub id: u64,
    /// Lowest inner key.
    pub smallest: Bytes,
    /// Highest inner key.
    pub biggest: Bytes,
    /// Where the table meta begins in the file.
    pub meta_offset: u32,
    /// Table ids of its keys.
    pub table_ids: TableIdSpan,
}

impl Clone for VectorIndexFile {
    fn clone(&self) -> (res: Self)
        ensures
            res == *self,
    {
        VectorIndexFile {
            id: self.id,
            smallest: self.smallest.clone(),
            biggest: self.biggest.clone(),
            meta_offset: self.meta_offset,
            table_ids: self.table_ids,
        }
    }
}

impl Default for VectorIndexFile {
    fn default() -> (res: Self)
        ensures
            res.id == 0,
            content(res.smallest) == Seq::<u8>::empty(),
            content(res.biggest) == Seq::<u8>::empty(),
            res.meta_offset == 0,
            res.table_ids == (TableIdSpan { min: i64::MIN, max: i64::MAX }),
    {
        VectorIndexFile {
            id: 0,
            smallest: Bytes::new(),
            biggest: Bytes::new(),
            meta_offset: 0,
            table_ids: TableIdSpan { min: i64::MIN, max: i64::MAX },
        }
    }
}

/// A full text search file of level 0 or 1.
#[derive(Debug, PartialEq, Eq)]
pub struct FtsPackedFileInfo {
    /// File id.
    pub id: u64,
    /// Lowest inner key.
    pub smallest: Bytes,
    /// Highest inner key.
    pub biggest: Bytes,
    /// Where the table meta begins in the file.
    pub meta_offset: u32,
    /// Table ids of its keys.
    pub table_ids: TableIdSpan,
}

impl Clone for FtsPackedFileInfo {
    fn clone(&self) -> (res: Self)
        ensures
            res == *self,
    {
        FtsPackedFileInfo {
            id: self.id,
            smallest: self.smallest.clone(),
            biggest: self.biggest.clone(),
            meta_offset: self.meta_offset,
            table_ids: self.table_ids,
        }
    }
}

impl Default for FtsPackedFileInfo {
    fn default() -> (res: Self)
        ensures
            res.id == 0,
            content(res.smallest) == Seq::<u8>::empty(),
            content(res.biggest) == Seq::<u8>::empty(),
            res.meta_offset == 0,
            res.table_ids == (TableIdSpan { min: i64::MIN, max: i64::MAX }),
    {
        FtsPackedFileInfo {
            id: 0,
            smallest: Bytes::new(),
            biggest: Bytes::new(),
            meta_offset: 0,
            table_ids: TableIdSpan { min: i64::MIN, max: i64::MAX },
        }
    }
}

/// A full text search file of level 2.
#[derive(Debug, PartialEq, Eq)]
pub struct FtsDedFileInfo {
    /// File id.
    pub id: u64,
    /// Lowest inner key.
    pub smallest: Bytes,
    /// Highest inner key.
    pub biggest: Bytes,
    /// Where the table meta begins in the file.
    pub meta_offset: u32,
    /// Table ids of its keys.
    pub table_ids: TableIdSpan,
}

impl Clone for FtsDedFileInfo {
    fn clone(&self) -> (res: Self)
        ensures
            res == *self,
    {
        FtsDedFileInfo {
            id: self.id,
            smallest: self.smallest.clone(),
            biggest: self.biggest.clone(),
            meta_offset: self.meta_offset,
            table_ids: self.table_ids,
        }
    }
}

impl Default for FtsDedFileInfo {
    fn default() -> (res: Self)
        ensures
            res.id == 0,
            content(res.smallest) == Seq::<u8>::empty(),
            content(res.biggest) == Seq::<u8>::empty(),
            res.meta_offset == 0,
            res.table_ids == (TableIdSpan { min: i64::MIN, max: i64::MAX }),
    {
        FtsDedFileInfo {
            id: 0,
            smallest: Bytes::new(),
            biggest: Bytes::new(),
            meta_offset: 0,
            table_ids: TableIdSpan { min: i64::MIN, max: i64::MAX },
        }
    }
}

/// An index of a table.
#[derive(Clone, Copy, Debug, PartialEq, Eq, Structural)]
pub struct TableIndexId {
    /// Table.
    pub table_id: i64,
    /// Index.
    pub index_id: i64,
}

/// A table or columnar file that leaves a level.
#[derive(Clone, Copy, Debug, PartialEq, Eq, Structural)]
pub struct TableDelete {
    /// File id.
    pub id: u64,
    /// Level.
    pub level: u32,
    /// Column family.
    pub cf: i32,
}

impl Default for TableDelete {
    fn default() -> (res: Self)
        ensures
            res.id == 0,
            res.level == 0,
            res.cf == 0,
    {
        TableDelete {
            id: 0,
            level: 0,
            cf: 0,
        }
    }
}

/// Which schema file a shard has.
#[derive(Clone, Copy, Debug, PartialEq, Eq, Structural)]
pub struct SchemaMeta {
    /// File id; zero where there is none.
    pub file_id: u64,
    /// Version of the schema.
    pub version: i64,
    /// Version of the last restore.
    pub restore_version: u64,
    /// Keyspace of the schema.
    pub keyspace_id: u32,
}

impl Default for SchemaMeta {
    fn default() -> (res: Self)
        ensures
            res.file_id == 0,
            res.version == 0,
            res.restore_version == 0,
            res.keyspace_id == 0,
    {
        SchemaMeta {
            file_id: 0,
            version: 0,
            restore_version: 0,
            keyspace_id: 0,
        }
    }
}

/// A transaction file that a shard refers to.
#[derive(Debug, PartialEq, Eq)]
pub struct TxnFileRef {
    /// Start of the transaction.
    pub start_ts: u64,
    /// What its locks begin with; empty where it holds none.
    pub lock_val_prefix: Bytes,
}

impl Clone for TxnFileRef {
    fn clone(&self) -> (res: Self)
        ensures
            res == *self,
    {
        TxnFileRef {
            start_ts: self.start_ts,
            lock_val_prefix: self.lock_val_prefix.clone(),
        }
    }
}

impl Default for TxnFileRef {
    fn default() -> (res: Self)
        ensures
            res.start_ts == 0,
            content(res.lock_val_prefix) == Seq::<u8>::empty(),
    {
        TxnFileRef {
            start_ts: 0,
            lock_val_prefix: Bytes::new(),
        }
    }
}

/// Properties of a shard, key by key.
#[derive(Clone, Debug, PartialEq, Eq)]
pub struct Properties {
    /// The shard.
    pub shard_id: u64,
    /// Keys.
    pub keys: Vec<String>,
    /// The value of each key.
    pub values: Vec<Bytes>,
}

impl Default for Properties {
    fn default() -> (res: Self)
        ensures
            res.shard_id == 0,
            res.keys@.len() == 0,
            res.values@.len() == 0,
    {
        Properties {
            shard_id: 0,
            keys: Vec::new(),
            values: Vec::new(),
        }
    }
}

impl Properties {
    /// Nothing is set.
    pub open spec fn is_empty(self) -> bool {
        self.shard_id == 0 && self.keys@.len() == 0 && self.values@.len() == 0
    }
}

/// A vector index of a table.
#[derive(Clone, Debug, PartialEq, Eq)]
pub struct VectorIndex {
    /// Table.
    pub table_id: i64,
    /// Index.
    pub index_id: i64,
    /// Column.
    pub col_id: i64,
    /// Version of the data that the index covers.
    pub snap_version: u64,
    /// Its files.
    pub files: Vec<VectorIndexFile>,
}

impl Default for VectorIndex {
    fn default() -> (res: Self)
        ensures
            res.table_id == 0,
            res.index_id == 0,
            res.col_id == 0,
            res.snap_version == 0,
            res.files@.len() == 0,
    {
        VectorIndex {
            table_id: 0,
            index_id: 0,
            col_id: 0,
            snap_version: 0,
            files: Vec::new(),
        }
    }
}

/// All files and settings of a shard.
#[derive(Clone, Debug, PartialEq, Eq)]
pub struct Snapshot {
    /// First key.
    pub outer_start: Bytes,
    /// Key that ends the shard.
    pub outer_end: Bytes,
    /// How many leading bytes inner keys drop.
    pub inner_key_off: u32,
    /// Properties.
    pub properties: Option<Properties>,
    /// What is added to a sequence to make a version.
    pub base_version: u64,
    /// Sequence of the last data in the files.
    pub data_sequence: u64,
    /// Highest timestamp in the files.
    pub max_ts: u64,
    /// Tables of level 0.
    pub l0_creates: Vec<L0Create>,
    /// Blob tables.
    pub blob_creates: Vec<BlobCreate>,
    /// Tables of the lower levels.
    pub table_creates: Vec<TableCreate>,
    /// Columnar files.
    pub columnar_creates: Vec<ColumnarCreate>,
    /// Schema file.
    pub schema_meta: Option<SchemaMeta>,
    /// Tables that are kept as columns.
    pub columnar_table_ids: Vec<i64>,
    /// Version of the columnar files of level 2.
    pub columnar_l2_snap_version: u64,
    /// Tables of level 0 that have no columnar file yet.
    pub unconverted_l0s: Vec<u64>,
    /// Vector indexes.
    pub vector_indexes: Vec<VectorIndex>,
    /// Full text indexes that are tracked.
    pub fts_indexes: Vec<TableIndexId>,
    /// Version that the full text files of level 0 cover.
    pub fts_l0_snap_version: u64,
    /// Full text files of level 0.
    pub fts_l0_files: Vec<FtsPackedFileInfo>,
    /// Full text files of level 1.
    pub fts_l1_files: Vec<FtsPackedFileInfo>,
    /// Full text files of level 2.
    pub fts_l2_files: Vec<FtsDedFileInfo>,
    /// Columnar files that full text search has yet to process.
    pub fts_pending_l0_ids: Vec<u64>,
    /// What the property of transaction files holds.
    pub txn_file_refs: Vec<TxnFileRef>,
}

impl Default for Snapshot {
    fn default() -> (res: Self)
        ensures
            content(res.outer_start) == Seq::<u8>::empty(),
            content(res.outer_end) == Seq::<u8>::empty(),
            res.inner_key_off == 0,
            res.properties is None,
            res.base_version == 0,
            res.data_sequence == 0,
            res.max_ts == 0,
            res.l0_creates@.len() == 0,
            res.blob_creates@.len() == 0,
            res.table_creates@.len() == 0,
            res.columnar_creates@.len() == 0,
            res.schema_meta is None,
            res.columnar_table_ids@.len() == 0,
            res.columnar_l2_snap_version == 0,
            res.unconverted_l0s@.len() == 0,
            res.vector_indexes@.len() == 0,
            res.fts_indexes@.len() == 0,
            res.fts_l0_snap_version == 0,
            res.fts_l0_files@.len() == 0,
            res.fts_l1_files@.len() == 0,
            res.fts_l2_files@.len() == 0,
            res.fts_pending_l0_ids@.len() == 0,
            res.txn_file_refs@.len() == 0,
    {
        Snapshot {
            outer_start: Bytes::new(),
            outer_end: Bytes::new(),
            inner_key_off: 0,
            properties: None,
            base_version: 0,
            data_sequence: 0,
            max_ts: 0,
            l0_creates: Vec::new(),
            blob_creates: Vec::new(),
            table_creates: Vec::new(),
            columnar_creates: Vec::new(),
            schema_meta: None,
            columnar_table_ids: Vec::new(),
            columnar_l2_snap_version: 0,
            unconverted_l0s: Vec::new(),
            vector_indexes: Vec::new(),
            fts_indexes: Vec::new(),
            fts_l0_snap_version: 0,
            fts_l0_files: Vec::new(),
            fts_l1_files: Vec::new(),
            fts_l2_files: Vec::new(),
            fts_pending_l0_ids: Vec::new(),
            txn_file_refs: Vec::new(),
        }
    }
}

/// Tables that memory tables were written to.
#[derive(Clone, Debug, PartialEq, Eq)]
pub struct Flush {
    /// A single table.
    pub l0_create: Option<L0Create>,
    /// Tables.
    pub l0_creates: Vec<L0Create>,
    /// Properties to set.
    pub properties: Properties,
    /// Version of the data.
    pub version: u64,
    /// Highest timestamp in the tables.
    pub max_ts: u64,
}

impl Default for Flush {
    fn default() -> (res: Self)
        ensures
            res.l0_create is None,
            res.l0_creates@.len() == 0,
            res.properties.is_empty(),
            res.version == 0,
            res.max_ts == 0,
    {
        Flush {
            l0_create: None,
            l0_creates: Vec::new(),
            properties: Properties::default(),
            version: 0,
            max_ts: 0,
        }
    }
}

/// Tables that were merged one level down.
#[derive(Clone, Debug, PartialEq, Eq)]
pub struct Compaction {
    /// Column family.
    pub cf: i32,
    /// The upper of the two levels.
    pub level: u32,
    /// Files that leave the upper level.
    pub top_deletes: Vec<u64>,
    /// Files that leave the lower level.
    pub bottom_deletes: Vec<u64>,
    /// New tables.
    pub table_creates: Vec<TableCreate>,
    /// New blob tables.
    pub blob_tables: Vec<BlobCreate>,
    /// The compaction is void and its new files are garbage.
    pub conflicted: bool,
}

impl Default for Compaction {
    fn default() -> (res: Self)
        ensures
            res.cf == 0,
            res.level == 0,
            res.top_deletes@.len() == 0,
            res.bottom_deletes@.len() == 0,
            res.table_creates@.len() == 0,
            res.blob_tables@.len() == 0,
            !res.conflicted,
    {
        Compaction {
            cf: 0,
            level: 0,
            top_deletes: Vec::new(),
            bottom_deletes: Vec::new(),
            table_creates: Vec::new(),
            blob_tables: Vec::new(),
            conflicted: false,
        }
    }
}

/// Tables and columnar files that are replaced.
#[derive(Clone, Debug, PartialEq, Eq)]
pub struct TableChange {
    /// Tables that leave.
    pub table_deletes: Vec<TableDelete>,
    /// New tables.
    pub table_creates: Vec<TableCreate>,
    /// Columnar files that leave.
    pub columnar_deletes: Vec<TableDelete>,
    /// New columnar files.
    pub columnar_creates: Vec<ColumnarCreate>,
    /// Pairs of a file that leaves and the one that replaces it.
    pub file_ids_map: Vec<u64>,
}

impl Default for TableChange {
    fn default() -> (res: Self)
        ensures
            res.table_deletes@.len() == 0,
            res.table_creates@.len() == 0,
            res.columnar_deletes@.len() == 0,
            res.columnar_creates@.len() == 0,
            res.file_ids_map@.len() == 0,
    {
        TableChange {
            table_deletes: Vec::new(),
            table_creates: Vec::new(),
            columnar_deletes: Vec::new(),
            columnar_creates: Vec::new(),
            file_ids_map: Vec::new(),
        }
    }
}

impl TableChange {
    /// Nothing changes.
    pub open spec fn is_empty(self) -> bool {
        &&& self.table_deletes@.len() == 0
        &&& self.table_creates@.len() == 0
        &&& self.columnar_deletes@.len() == 0
        &&& self.columnar_creates@.len() == 0
        &&& self.file_ids_map@.len() == 0
    }
}

/// Files that come from outside.
#[derive(Clone, Debug, PartialEq, Eq)]
pub struct IngestFiles {
    /// Tables of level 0.
    pub l0_creates: Vec<L0Create>,
    /// Tables of the lower levels.
    pub table_creates: Vec<TableCreate>,
    /// Blob tables.
    pub blob_creates: Vec<BlobCreate>,
    /// Properties to set.
    pub properties: Properties,
    /// Highest timestamp in the files.
    pub max_ts: u64,
    /// The one table that all keys belong to.
    pub table_id: Option<i64>,
}

impl Default for IngestFiles {
    fn default() -> (res: Self)
        ensures
            res.l0_creates@.len() == 0,
            res.table_creates@.len() == 0,
            res.blob_creates@.len() == 0,
            res.properties.is_empty(),
            res.max_ts == 0,
            res.table_id is None,
    {
        IngestFiles {
            l0_creates: Vec::new(),
            table_creates: Vec::new(),
            blob_creates: Vec::new(),
            properties: Properties::default(),
            max_ts: 0,
            table_id: None,
        }
    }
}

/// All tables merged into new ones.
#[derive(Clone, Debug, PartialEq, Eq)]
pub struct MajorCompaction {
    /// Tables that are replaced.
    pub sstable_change: TableChange,
    /// Blob tables that leave.
    pub old_blob_tables: Vec<u64>,
    /// New blob tables.
    pub new_blob_tables: Vec<BlobCreate>,
    /// The compaction is void and its new files are garbage.
    pub conflicted: bool,
}

impl Default for MajorCompaction {
    fn default() -> (res: Self)
        ensures
            res.sstable_change.is_empty(),
            res.old_blob_tables@.len() == 0,
            res.new_blob_tables@.len() == 0,
            !res.conflicted,
    {
        MajorCompaction {
            sstable_change: TableChange::default(),
            old_blob_tables: Vec::new(),
            new_blob_tables: Vec::new(),
            conflicted: false,
        }
    }
}

/// Columnar files that were merged.
#[derive(Clone, Debug, PartialEq, Eq)]
pub struct ColumnarCompaction {
    /// Columnar level of the new files.
    pub target_level: u32,
    /// Version of the data; zero clears all columnar files.
    pub snap_version: u64,
    /// Columnar files that are replaced.
    pub columnar_change: TableChange,
    /// Tables of level 0 that were converted.
    pub row_l0s: Vec<u64>,
    /// Tables that are kept as columns from now on.
    pub columnar_table_ids: Vec<i64>,
    /// Tables that no longer are.
    pub columnar_table_ids_to_clear: Vec<i64>,
    /// The compaction was asked for by a property.
    pub is_manual_major_compaction: bool,
}

impl Default for ColumnarCompaction {
    fn default() -> (res: Self)
        ensures
            res.target_level == 0,
            res.snap_version == 0,
            res.columnar_change.is_empty(),
            res.row_l0s@.len() == 0,
            res.columnar_table_ids@.len() == 0,
            res.columnar_table_ids_to_clear@.len() == 0,
            !res.is_manual_major_compaction,
    {
        ColumnarCompaction {
            target_level: 0,
            snap_version: 0,
            columnar_change: TableChange::default(),
            row_l0s: Vec::new(),
            columnar_table_ids: Vec::new(),
            columnar_table_ids_to_clear: Vec::new(),
            is_manual_major_compaction: false,
        }
    }
}

/// Files of a vector index that change.
#[derive(Clone, Debug, PartialEq, Eq)]
pub struct UpdateVectorIndex {
    /// Table.
    pub table_id: i64,
    /// Index.
    pub index_id: i64,
    /// Column.
    pub col_id: i64,
    /// Version of the data that the index covers.
    pub snap_version: u64,
    /// New files.
    pub added: Vec<VectorIndexFile>,
    /// Files that leave.
    pub removed: Vec<u64>,
}

impl Default for UpdateVectorIndex {
    fn default() -> (res: Self)
        ensures
            res.table_id == 0,
            res.index_id == 0,
            res.col_id == 0,
            res.snap_version == 0,
            res.added@.len() == 0,
            res.removed@.len() == 0,
    {
        UpdateVectorIndex {
            table_id: 0,
            index_id: 0,
            col_id: 0,
            snap_version: 0,
            added: Vec::new(),
            removed: Vec::new(),
        }
    }
}

/// Full text search files that change.
#[derive(Clone, Debug, PartialEq, Eq)]
pub struct FtsUpdate {
    /// Everything leaves.
    pub clear_all: bool,
    /// Indexes that are no longer tracked.
    pub remove_tracked_indexes: Vec<TableIndexId>,
    /// Indexes that are tracked from now on.
    pub add_tracked_indexes: Vec<TableIndexId>,
    /// New files of level 0.
    pub l0_add_files: Vec<FtsPackedFileInfo>,
    /// New files of level 1.
    pub l1_add_files: Vec<FtsPackedFileInfo>,
    /// New files of level 2.
    pub l2_add_files: Vec<FtsDedFileInfo>,
    /// Files that leave level 0.
    pub l0_remove_files: Vec<u64>,
    /// Files that leave level 1.
    pub l1_remove_files: Vec<u64>,
    /// Files that leave level 2.
    pub l2_remove_files: Vec<u64>,
    /// Version that level 0 covers from now on; zero keeps it.
    pub set_snap_version: u64,
    /// Columnar files that are no longer pending.
    pub pending_columnar_l0_remove_files: Vec<u64>,
}

impl Default for FtsUpdate {
    fn default() -> (res: Self)
        ensures
            !res.clear_all,
            res.remove_tracked_indexes@.len() == 0,
            res.add_tracked_indexes@.len() == 0,
            res.l0_add_files@.len() == 0,
            res.l1_add_files@.len() == 0,
            res.l2_add_files@.len() == 0,
            res.l0_remove_files@.len() == 0,
            res.l1_remove_files@.len() == 0,
            res.l2_remove_files@.len() == 0,
            res.set_snap_version == 0,
            res.pending_columnar_l0_remove_files@.len() == 0,
    {
        FtsUpdate {
            clear_all: false,
            remove_tracked_indexes: Vec::new(),
            add_tracked_indexes: Vec::new(),
            l0_add_files: Vec::new(),
            l1_add_files: Vec::new(),
            l2_add_files: Vec::new(),
            l0_remove_files: Vec::new(),
            l1_remove_files: Vec::new(),
            l2_remove_files: Vec::new(),
            set_snap_version: 0,
            pending_columnar_l0_remove_files: Vec::new(),
        }
    }
}

/// A shard that is cut into several.
#[derive(Clone, Debug, PartialEq, Eq)]
pub struct Split {
    /// Properties of each part.
    pub new_shards: Vec<Properties>,
    /// Where the parts meet.
    pub keys: Vec<Vec<u8>>,
}

/// Where the files of a shard may be kept.
#[derive(Clone, Copy, Debug, PartialEq, Eq, Structural)]
pub enum StorageClass {
    /// On local disks.
    Unspecified,
    /// Remote, for data that is read seldom.
    Ia,
}

impl StorageClass {
    /// Whether files are kept remote.
    pub fn is_ia(&self) -> (res: bool)
        ensures
            res == (*self is Ia),
    {
        matches!(self, StorageClass::Ia)
    }
}

/// Where the files of a shard are to be kept.
#[derive(Clone, Copy, Debug, PartialEq, Eq, Structural)]
pub struct StorageClassSpec {
    /// A storage class was asked for.
    pub specified: bool,
    /// Files are always kept remote.
    pub must_be_ia: bool,
    /// Files are kept remote once their data is this many milliseconds old.
    pub ia_after_ms: Option<u64>,
}

impl Default for StorageClassSpec {
    fn default() -> (res: Self)
        ensures
            res == (StorageClassSpec { specified: false, must_be_ia: false, ia_after_ms: None }),
    {
        StorageClassSpec { specified: false, must_be_ia: false, ia_after_ms: None }
    }
}

impl StorageClassSpec {
    /// Files are, or may come to be, kept remote.
    pub open spec fn spec_can_be_ia(self) -> bool {
        self.must_be_ia || self.ia_after_ms is Some
    }

    /// Where data of the given age is to be kept.
    pub open spec fn class_at(self, age_ms: u64) -> StorageClass {
        if self.must_be_ia || (self.ia_after_ms matches Some(after) && age_ms >= after) {
            StorageClass::Ia
        } else {
            StorageClass::Unspecified
        }
    }

    /// Whether a storage class was asked for.
    pub fn is_specified(&self) -> (res: bool)
        ensures
            res == self.specified,
    {
        self.specified
    }

    /// Whether files are, or may come to be, kept remote.
    pub fn can_be_ia(&self) -> (res: bool)
        ensures
            res == self.spec_can_be_ia(),
    {
        self.must_be_ia || self.ia_after_ms.is_some()
    }

    /// Where data of the given age is to be kept.
    pub fn target_storage_class(&self, age_ms: u64) -> (res: StorageClass)
        ensures
            res == self.class_at(age_ms),
    {
        if self.must_be_ia {
            return StorageClass::Ia;
        }
        match self.ia_after_ms {
            Some(after) => if age_ms >= after {
                StorageClass::Ia
            } else {
                StorageClass::Unspecified
            },
            None => StorageClass::Unspecified,
        }
    }
}

/// One change of a shard. At most one of its parts is meant to be there.
#[derive(Debug)]
pub struct ChangeSet {
    /// The shard.
    pub shard_id: u64,
    /// Version of the shard.
    pub shard_ver: u64,
    /// Sequence of the change.
    pub sequence: u64,
    /// The whole shard.
    pub snapshot: Option<Snapshot>,
    /// The whole shard after its first flush.
    pub initial_flush: Option<Snapshot>,
    /// The whole shard as it is restored.
    pub restore_shard: Option<Snapshot>,
    /// What differs from an earlier snapshot.
    pub snapshot_diff: Option<Snapshot>,
    /// A flush.
    pub flush: Option<Flush>,
    /// A compaction of two levels.
    pub compaction: Option<Compaction>,
    /// Tables that lost the keys of deleted prefixes.
    pub destroy_range: Option<TableChange>,
    /// Tables that lost the newest versions.
    pub truncate_ts: Option<TableChange>,
    /// Tables that lost the keys outside the shard.
    pub trim_over_bound: Option<TableChange>,
    /// Files from outside.
    pub ingest_files: Option<IngestFiles>,
    /// A compaction of all levels.
    pub major_compaction: Option<MajorCompaction>,
    /// Another schema file.
    pub update_schema_meta: Option<SchemaMeta>,
    /// A compaction of columnar files.
    pub columnar_compaction: Option<ColumnarCompaction>,
    /// Files of a vector index.
    pub update_vector_index: Option<UpdateVectorIndex>,
    /// Full text search files.
    pub fts_update: Option<FtsUpdate>,
    /// All columnar files leave.
    pub clear_columnar: bool,
    /// All columnar files leave and the restore version is set.
    pub clear_columnar_with_restore_version: Option<u64>,
    /// Key of a property, empty where there is none.
    pub property_key: String,
    /// Value of the property.
    pub property_value: Bytes,
    /// The value is merged with the present one.
    pub property_merge: bool,
    /// What the value says, where it is a storage class specification.
    pub storage_class: StorageClassSpec,
    /// The shard that this one was made from.
    pub parent: Option<Box<ChangeSet>>,
}

/// A change set of the shard that changes nothing yet.
pub fn new_change_set(shard_id: u64, shard_ver: u64) -> (res: ChangeSet)
    ensures
        res.shard_id == shard_id,
        res.shard_ver == shard_ver,
        res.blank(),
{
    ChangeSet {
        shard_id,
        shard_ver,
        sequence: 0,
        snapshot: None,
        initial_flush: None,
        restore_shard: None,
        snapshot_diff: None,
        flush: None,
        compaction: None,
        destroy_range: None,
        truncate_ts: None,
        trim_over_bound: None,
        ingest_files: None,
        major_compaction: None,
        update_schema_meta: None,
        columnar_compaction: None,
        update_vector_index: None,
        fts_update: None,
        clear_columnar: false,
        clear_columnar_with_restore_version: None,
        property_key: String::new(),
        property_value: Bytes::new(),
        property_merge: false,
        storage_class: StorageClassSpec::default(),
        parent: None,
    }
}

impl ChangeSet {
    /// Nothing but the shard is set.
    pub open spec fn blank(self) -> bool {
        &&& self.sequence == 0
        &&& self.snapshot is None
        &&& self.initial_flush is None
        &&& self.restore_shard is None
        &&& self.snapshot_diff is None
        &&& self.flush is None
        &&& self.compaction is None
        &&& self.destroy_range is None
        &&& self.truncate_ts is None
        &&& self.trim_over_bound is None
        &&& self.ingest_files is None
        &&& self.major_compaction is None
        &&& self.update_schema_meta is None
        &&& self.columnar_compaction is None
        &&& self.update_vector_index is None
        &&& self.fts_update is None
        &&& !self.clear_columnar
        &&& self.clear_columnar_with_restore_version is None
        &&& self.property_key@.len() == 0
        &&& content(self.property_value).len() == 0
        &&& !self.property_merge
        &&& self.storage_class == (StorageClassSpec {
            specified: false,
            must_be_ia: false,
            ia_after_ms: None,
        })
        &&& self.parent is None
    }
}

impl Default for ChangeSet {
    fn default() -> (res: Self)
        ensures
            res.shard_id == 0,
            res.shard_ver == 0,
            res.blank(),
    {
        new_change_set(0, 0)
    }
}

} // verus!
