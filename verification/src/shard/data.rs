//! The data of a shard: memory tables, tables, columnar files and indexes.
use bytes::Bytes;
use std::collections::HashMap;
use vstd::prelude::*;

use crate::bound::{Bound, BoundedDataSet, DataBound, InnerKey};
use crate::buf::content;
use crate::file_meta::{key_bound, FileMeta, SnapVersion};
use crate::lists::{
    contains_i64, copy_i64s, copy_u64s, retain_vec, sort_i64s, sort_u64s, sorted_i64, sorted_u64,
};
use crate::pb::{TableIdSpan, VectorIndex};
use crate::range::{Range, ShardRange};
use crate::shard::levels::{level_of, levels_sync, tables_max_ts, Level, ShardCf, SsTable};
use crate::vectors::{vector_bags, vectors_of, Vector};
use crate::{NUM_CFS, WRITE_CF};

verus! {

broadcast use vstd::std_specs::hash::group_hash_axioms;

/// A table in memory.
pub struct MemTable {
    /// The inner keys that it holds.
    pub keys: Vec<Bytes>,
    /// Size of its data.
    pub size: u64,
    /// Highest timestamp of its data.
    pub max_ts: u64,
    /// Version of its data.
    pub version: SnapVersion,
    /// It was switched because the version of the shard changed.
    pub force_switch: bool,
    /// Size of properties that are not in files yet.
    pub unpersisted_props_size: usize,
    /// Chunks of the transaction files that it refers to.
    pub txn_chunks: Vec<u64>,
}

/// A table in memory.
#[verifier::ext_equal]
pub struct Mem {
    /// The inner keys that it holds.
    pub keys: Seq<Bytes>,
    /// Size of its data.
    pub size: u64,
    /// Highest timestamp of its data.
    pub max_ts: u64,
    /// Version of its data.
    pub version: SnapVersion,
    /// It was switched because the version of the shard changed.
    pub force_switch: bool,
    /// Size of properties that are not in files yet.
    pub unpersisted_props_size: usize,
    /// Chunks of the transaction files that it refers to.
    pub txn_chunks: Seq<u64>,
}

impl View for MemTable {
    type V = Mem;

    open spec fn view(&self) -> Mem {
        Mem {
            keys: self.keys@,
            size: self.size,
            max_ts: self.max_ts,
            version: self.version,
            force_switch: self.force_switch,
            unpersisted_props_size: self.unpersisted_props_size,
            txn_chunks: self.txn_chunks@,
        }
    }
}

impl Mem {
    /// A table with nothing in it.
    pub open spec fn empty() -> Mem {
        Mem {
            keys: Seq::empty(),
            size: 0,
            max_ts: 0,
            version: SnapVersion { version: 0 },
            force_switch: false,
            unpersisted_props_size: 0,
            txn_chunks: Seq::empty(),
        }
    }

    /// A key lies in the bound.
    pub open spec fn in_bound(self, b: Bound) -> bool {
        exists|i: int| 0 <= i < self.keys.len() && b.has(content(#[trigger] self.keys[i]))
    }

    /// A key lies outside the bound.
    pub open spec fn over_bound(self, b: Bound) -> bool {
        exists|i: int| 0 <= i < self.keys.len() && !b.has(content(#[trigger] self.keys[i]))
    }
}

impl MemTable {
    /// A table with nothing in it.
    pub fn new() -> (res: Self)
        ensures
            res@ == Mem::empty(),
    {
        let res = MemTable {
            keys: Vec::new(),
            size: 0,
            max_ts: 0,
            version: SnapVersion::zero(),
            force_switch: false,
            unpersisted_props_size: 0,
            txn_chunks: Vec::new(),
        };
        assert(res@ =~= Mem::empty());
        res
    }

    /// A copy.
    pub fn copy(&self) -> (res: Self)
        ensures
            res@ == self@,
    {
        let keys = self.keys.clone();
        assert(keys@ =~= self.keys@);
        MemTable {
            keys,
            size: self.size,
            max_ts: self.max_ts,
            version: self.version,
            force_switch: self.force_switch,
            unpersisted_props_size: self.unpersisted_props_size,
            txn_chunks: copy_u64s(&self.txn_chunks),
        }
    }

    /// Whether a key lies in the bound.
    pub fn has_data_in_bound(&self, bound: DataBound<'_>) -> (res: bool)
        ensures
            res == self@.in_bound(bound@),
    {
        let mut i: usize = 0;
        while i < self.keys.len()
            invariant
                i <= self.keys@.len(),
                forall|j: int| 0 <= j < i ==> !bound@.has(content(#[trigger] self.keys@[j])),
            decreases self.keys@.len() - i,
        {
            let key = InnerKey::from_inner_buf(&self.keys[i]);
            if bound.lower_bound.le(key) && bound.reaches_key(key) {
                assert(bound@.has(content(self@.keys[i as int])));
                return true;
            }
            i = i + 1;
        }
        false
    }

    /// Whether a key lies outside the bound.
    pub fn has_over_bound_data(&self, bound: DataBound<'_>) -> (res: bool)
        ensures
            res == self@.over_bound(bound@),
    {
        let mut i: usize = 0;
        while i < self.keys.len()
            invariant
                i <= self.keys@.len(),
                forall|j: int| 0 <= j < i ==> bound@.has(content(#[trigger] self.keys@[j])),
            decreases self.keys@.len() - i,
        {
            let key = InnerKey::from_inner_buf(&self.keys[i]);
            if !(bound.lower_bound.le(key) && bound.reaches_key(key)) {
                assert(!bound@.has(content(self@.keys[i as int])));
                return true;
            }
            i = i + 1;
        }
        false
    }
}

/// What is known of an open table of level 0.
#[derive(Debug)]
pub struct L0Table {
    /// File id.
    pub id: u64,
    /// Lowest inner key.
    pub smallest: Bytes,
    /// Highest inner key.
    pub biggest: Bytes,
    /// Size of the file.
    pub size: u64,
    /// Number of entries.
    pub entries: u64,
    /// Size of keys and values.
    pub kv_size: u64,
    /// Highest timestamp.
    pub max_ts: u64,
    /// Version of the data.
    pub version: SnapVersion,
    /// Size of the blobs that it refers to.
    pub blob_size: u64,
    /// Table ids of its keys.
    pub table_ids: TableIdSpan,
}

impl Clone for L0Table {
    fn clone(&self) -> (res: Self)
        ensures
            res == *self,
    {
        L0Table {
            id: self.id,
            smallest: self.smallest.clone(),
            biggest: self.biggest.clone(),
            size: self.size,
            entries: self.entries,
            kv_size: self.kv_size,
            max_ts: self.max_ts,
            version: self.version,
            blob_size: self.blob_size,
            table_ids: self.table_ids,
        }
    }
}

impl BoundedDataSet for L0Table {
    open spec fn bound(&self) -> Bound {
        key_bound(self.smallest, self.biggest)
    }

    fn data_bound(&self) -> (res: DataBound<'_>) {
        DataBound::new(
            InnerKey::from_inner_buf(&self.smallest),
            InnerKey::from_inner_buf(&self.biggest),
            true,
        )
    }
}

/// What is known of an open blob table.
#[derive(Debug)]
pub struct BlobTable {
    /// File id.
    pub id: u64,
    /// Lowest inner key.
    pub smallest: Bytes,
    /// Highest inner key.
    pub biggest: Bytes,
    /// Size of the blobs in it.
    pub blob_size: u64,
    /// Table ids of its keys.
    pub table_ids: TableIdSpan,
}

impl Clone for BlobTable {
    fn clone(&self) -> (res: Self)
        ensures
            res == *self,
    {
        BlobTable {
            id: self.id,
            smallest: self.smallest.clone(),
            biggest: self.biggest.clone(),
            blob_size: self.blob_size,
            table_ids: self.table_ids,
        }
    }
}

impl BoundedDataSet for BlobTable {
    open spec fn bound(&self) -> Bound {
        key_bound(self.smallest, self.biggest)
    }

    fn data_bound(&self) -> (res: DataBound<'_>) {
        DataBound::new(
            InnerKey::from_inner_buf(&self.smallest),
            InnerKey::from_inner_buf(&self.biggest),
            true,
        )
    }
}

/// What is known of an open columnar file.
#[derive(Debug)]
pub struct ColumnarFile {
    /// File id.
    pub id: u64,
    /// Lowest inner key.
    pub smallest: Bytes,
    /// Highest inner key.
    pub biggest: Bytes,
    /// Size of the file.
    pub size: u64,
    /// Size of keys and values, estimated.
    pub kv_size: u64,
    /// Version of the data.
    pub snap_version: Option<SnapVersion>,
    /// Table ids of its keys.
    pub table_ids: TableIdSpan,
}

impl Clone for ColumnarFile {
    fn clone(&self) -> (res: Self)
        ensures
            res == *self,
    {
        ColumnarFile {
            id: self.id,
            smallest: self.smallest.clone(),
            biggest: self.biggest.clone(),
            size: self.size,
            kv_size: self.kv_size,
            snap_version: self.snap_version,
            table_ids: self.table_ids,
        }
    }
}

impl BoundedDataSet for ColumnarFile {
    open spec fn bound(&self) -> Bound {
        key_bound(self.smallest, self.biggest)
    }

    fn data_bound(&self) -> (res: DataBound<'_>) {
        DataBound::new(
            InnerKey::from_inner_buf(&self.smallest),
            InnerKey::from_inner_buf(&self.biggest),
            true,
        )
    }
}

impl ColumnarFile {
    /// Version of the data, the lowest where it is not known.
    pub open spec fn snap(self) -> SnapVersion {
        match self.snap_version {
            Some(v) => v,
            None => SnapVersion { version: 0 },
        }
    }
}

/// What is known of an open full text file.
#[derive(Debug)]
pub struct FtsFile {
    /// File id.
    pub id: u64,
    /// Lowest inner key.
    pub smallest: Bytes,
    /// Highest inner key.
    pub biggest: Bytes,
}

impl Clone for FtsFile {
    fn clone(&self) -> (res: Self)
        ensures
            res == *self,
    {
        FtsFile { id: self.id, smallest: self.smallest.clone(), biggest: self.biggest.clone() }
    }
}

/// A copy of the files.
pub fn copy_fts_files(v: &Vec<FtsFile>) -> (res: Vec<FtsFile>)
    ensures
        res@ == v@,
{
    let res = v.clone();
    assert(res@ =~= v@);
    res
}

/// Columnar files by level, and the tables that are to become some.
pub struct ColumnarLevels {
    /// Files of each level.
    pub levels: Vec<Vec<ColumnarFile>>,
    /// Tables of level 0 that have no columnar file yet.
    pub unconverted_l0s: Vec<L0Table>,
    /// Version of the files of level 2.
    pub l2_snap_version: SnapVersion,
}

/// Columnar files by level, and the tables that are to become some.
#[verifier::ext_equal]
pub struct Columnar {
    /// Files of each level.
    pub levels: Seq<Seq<ColumnarFile>>,
    /// Tables of level 0 that have no columnar file yet.
    pub unconverted_l0s: Seq<L0Table>,
    /// Version of the files of level 2.
    pub l2_snap_version: SnapVersion,
}

impl View for ColumnarLevels {
    type V = Columnar;

    open spec fn view(&self) -> Columnar {
        Columnar {
            levels: Seq::new(self.levels@.len(), |i: int| self.levels@[i]@),
            unconverted_l0s: self.unconverted_l0s@,
            l2_snap_version: self.l2_snap_version,
        }
    }
}

/// A copy of the files.
pub fn copy_columnar_files(v: &Vec<ColumnarFile>) -> (res: Vec<ColumnarFile>)
    ensures
        res@ == v@,
{
    let res = v.clone();
    assert(res@ =~= v@);
    res
}

/// A copy of the tables.
pub fn copy_l0s(v: &Vec<L0Table>) -> (res: Vec<L0Table>)
    ensures
        res@ == v@,
{
    let res = v.clone();
    assert(res@ =~= v@);
    res
}

impl Columnar {
    /// No file yet.
    pub open spec fn empty() -> Columnar {
        Columnar {
            levels: seq![Seq::empty(), Seq::empty(), Seq::empty()],
            unconverted_l0s: Seq::empty(),
            l2_snap_version: SnapVersion { version: 0 },
        }
    }
}

impl Columnar {
    /// The same files at each level, in whatever order.
    pub open spec fn reorders(self, other: Columnar) -> bool {
        &&& self.levels.len() == other.levels.len()
        &&& forall|i: int|
            0 <= i < self.levels.len() ==> (#[trigger] self.levels[i]).to_multiset()
                == other.levels[i].to_multiset()
        &&& self.unconverted_l0s == other.unconverted_l0s
        &&& self.l2_snap_version == other.l2_snap_version
    }
}

impl ColumnarLevels {
    /// No file yet.
    pub fn new() -> (res: Self)
        ensures
            res@ == Columnar::empty(),
    {
        let mut levels: Vec<Vec<ColumnarFile>> = Vec::new();
        levels.push(Vec::new());
        levels.push(Vec::new());
        levels.push(Vec::new());
        let res = ColumnarLevels {
            levels,
            unconverted_l0s: Vec::new(),
            l2_snap_version: SnapVersion::zero(),
        };
        assert(res@ =~~= Columnar::empty());
        res
    }

    /// A copy.
    pub fn copy(&self) -> (res: Self)
        ensures
            res@ == self@,
    {
        let mut levels: Vec<Vec<ColumnarFile>> = Vec::new();
        let mut i: usize = 0;
        while i < self.levels.len()
            invariant
                i <= self.levels@.len(),
                levels@.len() == i,
                forall|j: int| 0 <= j < i ==> (#[trigger] levels@[j])@ == self.levels@[j]@,
            decreases self.levels@.len() - i,
        {
            levels.push(copy_columnar_files(&self.levels[i]));
            i = i + 1;
        }
        let res = ColumnarLevels {
            levels,
            unconverted_l0s: copy_l0s(&self.unconverted_l0s),
            l2_snap_version: self.l2_snap_version,
        };
        assert(res@ =~= self@);
        res
    }
}

/// A transaction file that holds locks.
pub struct TxnFile {
    /// Start of the transaction.
    pub start_ts: u64,
    /// Its chunks.
    pub chunk_ids: Vec<u64>,
}

/// A transaction file that holds locks.
#[verifier::ext_equal]
pub struct Txn {
    /// Start of the transaction.
    pub start_ts: u64,
    /// Its chunks.
    pub chunk_ids: Seq<u64>,
}

impl View for TxnFile {
    type V = Txn;

    open spec fn view(&self) -> Txn {
        Txn { start_ts: self.start_ts, chunk_ids: self.chunk_ids@ }
    }
}

/// What a schema file says of a vector index.
#[derive(Clone, Copy, Debug, PartialEq, Eq, Structural)]
pub struct VectorIndexDef {
    /// Table.
    pub table_id: i64,
    /// Index.
    pub index_id: i64,
    /// Column.
    pub col_id: i64,
    /// Number of dimensions.
    pub dimension: usize,
}

/// What is known of an open schema file.
pub struct SchemaFile {
    /// File id.
    pub file_id: u64,
    /// Version of the schema.
    pub version: i64,
    /// Version of the last restore.
    pub restore_version: u64,
    /// All tables.
    pub tables: Vec<i64>,
    /// Tables that are to be kept as columns.
    pub columnar_tables: Vec<i64>,
    /// Vector indexes, by table.
    pub vector_indexes: Vec<VectorIndexDef>,
}

/// What is known of an open schema file.
#[verifier::ext_equal]
pub struct Schema {
    /// File id.
    pub file_id: u64,
    /// Version of the schema.
    pub version: i64,
    /// Version of the last restore.
    pub restore_version: u64,
    /// All tables.
    pub tables: Seq<i64>,
    /// Tables that are to be kept as columns.
    pub columnar_tables: Seq<i64>,
    /// Vector indexes, by table.
    pub vector_indexes: Seq<VectorIndexDef>,
}

impl View for SchemaFile {
    type V = Schema;

    open spec fn view(&self) -> Schema {
        Schema {
            file_id: self.file_id,
            version: self.version,
            restore_version: self.restore_version,
            tables: self.tables@,
            columnar_tables: self.columnar_tables@,
            vector_indexes: self.vector_indexes@,
        }
    }
}

impl SchemaFile {
    /// A copy.
    pub fn copy(&self) -> (res: Self)
        ensures
            res@ == self@,
    {
        let vector_indexes = self.vector_indexes.clone();
        assert(vector_indexes@ =~= self.vector_indexes@);
        SchemaFile {
            file_id: self.file_id,
            version: self.version,
            restore_version: self.restore_version,
            tables: copy_i64s(&self.tables),
            columnar_tables: copy_i64s(&self.columnar_tables),
            vector_indexes,
        }
    }
}

/// What an optional schema file says.
pub open spec fn schema_of(s: Option<SchemaFile>) -> Option<Schema> {
    match s {
        Some(s) => Some(s@),
        None => None,
    }
}

/// The data of a shard.
pub struct ShardData {
    /// Range.
    pub range: ShardRange,
    /// How many leading bytes inner keys drop.
    pub inner_key_off: usize,
    /// Memory tables, the one that is written to first.
    pub mem_tbls: Vec<MemTable>,
    /// Transaction files that hold locks.
    pub lock_txn_files: Vec<TxnFile>,
    /// Tables of level 0, the newest first.
    pub l0_tbls: Vec<L0Table>,
    /// Blob tables.
    pub blob_tbls: Vec<BlobTable>,
    /// Column families.
    pub cfs: Vec<ShardCf>,
    /// Tables that are not loaded yet.
    pub unloaded_tbls: HashMap<u64, FileMeta>,
    /// How often the data was replaced.
    pub update_counter: u64,
    /// Version of the schema, even where there is no file.
    pub schema_version: i64,
    /// Version of the last restore, even where there is no file.
    pub restore_version: u64,
    /// Schema file.
    pub schema_file: Option<SchemaFile>,
    /// Columnar files.
    pub col_levels: ColumnarLevels,
    /// Vector indexes.
    pub vector_indexes: Vec<VectorIndex>,
    /// Tables that are kept as columns.
    pub columnar_table_ids: Vec<i64>,
    /// Packed full text files of level 0.
    pub fts_l0_files: Vec<FtsFile>,
    /// Packed full text files of level 1.
    pub fts_l1_files: Vec<FtsFile>,
    /// Dedicated full text files, which are those of level 2.
    pub fts_l2_files: Vec<FtsFile>,
    /// Version of the data in files.
    pub persisted_version: SnapVersion,
}

/// The data of a shard.
#[verifier::ext_equal]
pub struct Data {
    /// Range.
    pub range: Range,
    /// How many leading bytes inner keys drop.
    pub inner_key_off: usize,
    /// Memory tables, the one that is written to first.
    pub mem_tbls: Seq<Mem>,
    /// Transaction files that hold locks.
    pub lock_txn_files: Seq<Txn>,
    /// Tables of level 0, the newest first.
    pub l0_tbls: Seq<L0Table>,
    /// Blob tables.
    pub blob_tbls: Seq<BlobTable>,
    /// Levels of each column family.
    pub cfs: Seq<Seq<Level>>,
    /// Tables that are not loaded yet.
    pub unloaded_tbls: Map<u64, FileMeta>,
    /// How often the data was replaced.
    pub update_counter: u64,
    /// Version of the schema, even where there is no file.
    pub schema_version: i64,
    /// Version of the last restore, even where there is no file.
    pub restore_version: u64,
    /// Schema file.
    pub schema_file: Option<Schema>,
    /// Columnar files.
    pub col_levels: Columnar,
    /// Vector indexes.
    pub vector_indexes: Seq<Vector>,
    /// Tables that are kept as columns.
    pub columnar_table_ids: Seq<i64>,
    /// Packed full text files of level 0.
    pub fts_l0_files: Seq<FtsFile>,
    /// Packed full text files of level 1.
    pub fts_l1_files: Seq<FtsFile>,
    /// Dedicated full text files, which are those of level 2.
    pub fts_l2_files: Seq<FtsFile>,
    /// Version of the data in files.
    pub persisted_version: SnapVersion,
}

impl View for ShardData {
    type V = Data;

    open spec fn view(&self) -> Data {
        Data {
            range: self.range@,
            inner_key_off: self.inner_key_off,
            mem_tbls: Seq::new(self.mem_tbls@.len(), |i: int| self.mem_tbls@[i]@),
            lock_txn_files: Seq::new(self.lock_txn_files@.len(), |i: int| self.lock_txn_files@[i]@),
            l0_tbls: self.l0_tbls@,
            blob_tbls: self.blob_tbls@,
            cfs: Seq::new(self.cfs@.len(), |i: int| self.cfs@[i]@),
            unloaded_tbls: self.unloaded_tbls@,
            update_counter: self.update_counter,
            schema_version: self.schema_version,
            restore_version: self.restore_version,
            schema_file: schema_of(self.schema_file),
            col_levels: self.col_levels@,
            vector_indexes: vectors_of(self.vector_indexes@),
            columnar_table_ids: self.columnar_table_ids@,
            fts_l0_files: self.fts_l0_files@,
            fts_l1_files: self.fts_l1_files@,
            fts_l2_files: self.fts_l2_files@,
            persisted_version: self.persisted_version,
        }
    }
}

/// The ids of tables of level 0.
pub open spec fn ids_of_l0s(s: Seq<L0Table>) -> Seq<u64> {
    Seq::new(s.len(), |i: int| s[i].id)
}

/// The ids of blob tables.
pub open spec fn ids_of_blobs(s: Seq<BlobTable>) -> Seq<u64> {
    Seq::new(s.len(), |i: int| s[i].id)
}

/// The tables of all levels of a column family.
pub open spec fn tables_of_levels(levels: Seq<Level>) -> Seq<SsTable>
    decreases levels.len(),
{
    if levels.len() == 0 {
        Seq::empty()
    } else {
        tables_of_levels(levels.drop_last()) + levels.last().tables
    }
}

/// The tables of all column families.
pub open spec fn tables_of_cfs(cfs: Seq<Seq<Level>>) -> Seq<SsTable>
    decreases cfs.len(),
{
    if cfs.len() == 0 {
        Seq::empty()
    } else {
        tables_of_cfs(cfs.drop_last()) + tables_of_levels(cfs.last())
    }
}

/// The ids of tables that are read from local files. Where `distinguish` is not
/// asked for, that is all of them.
pub open spec fn local_ids(s: Seq<SsTable>, distinguish: bool) -> Seq<u64>
    decreases s.len(),
{
    if s.len() == 0 {
        Seq::empty()
    } else {
        let rest = local_ids(s.drop_last(), distinguish);
        let t = s.last();
        if !distinguish || t.sync || !t.storage_class_ia {
            rest.push(t.id)
        } else {
            rest
        }
    }
}

/// The ids of tables that are read remotely.
pub open spec fn remote_ids(s: Seq<SsTable>, distinguish: bool) -> Seq<u64>
    decreases s.len(),
{
    if s.len() == 0 {
        Seq::empty()
    } else {
        let rest = remote_ids(s.drop_last(), distinguish);
        if distinguish && !s.last().sync {
            rest.push(s.last().id)
        } else {
            rest
        }
    }
}

/// The ids of columnar files, level by level.
pub open spec fn col_ids(levels: Seq<Seq<ColumnarFile>>) -> Seq<u64>
    decreases levels.len(),
{
    if levels.len() == 0 {
        Seq::empty()
    } else {
        col_ids(levels.drop_last()) + Seq::new(
            levels.last().len(),
            |i: int| levels.last()[i].id,
        )
    }
}

/// The ids of the files of vector indexes.
pub open spec fn vec_ids(s: Seq<Vector>) -> Seq<u64>
    decreases s.len(),
{
    if s.len() == 0 {
        Seq::empty()
    } else {
        vec_ids(s.drop_last()) + Seq::new(s.last().files.len(), |i: int| s.last().files[i].id)
    }
}

/// The chunks of transaction files.
pub open spec fn txn_chunks(s: Seq<Txn>) -> Seq<u64>
    decreases s.len(),
{
    if s.len() == 0 {
        Seq::empty()
    } else {
        txn_chunks(s.drop_last()) + s.last().chunk_ids
    }
}

/// The chunks that memory tables refer to.
pub open spec fn mem_chunks(s: Seq<Mem>) -> Seq<u64>
    decreases s.len(),
{
    if s.len() == 0 {
        Seq::empty()
    } else {
        mem_chunks(s.drop_last()) + s.last().txn_chunks
    }
}

/// The highest timestamp of memory tables.
pub open spec fn mem_max_ts(s: Seq<Mem>) -> u64
    decreases s.len(),
{
    if s.len() == 0 {
        0
    } else {
        let rest = mem_max_ts(s.drop_last());
        if rest >= s.last().max_ts {
            rest
        } else {
            s.last().max_ts
        }
    }
}

/// The sizes of memory tables.
pub open spec fn mem_size(s: Seq<Mem>) -> int
    decreases s.len(),
{
    if s.len() == 0 {
        0
    } else {
        mem_size(s.drop_last()) + s.last().size
    }
}

/// The highest version of columnar files, those of the first two levels by file
/// and the others by what is noted for level 2.
pub open spec fn files_version(s: Seq<ColumnarFile>) -> SnapVersion
    decreases s.len(),
{
    if s.len() == 0 {
        SnapVersion { version: 0 }
    } else {
        files_version(s.drop_last()).spec_max(s.last().snap())
    }
}

impl Columnar {
    /// The highest version of the columnar files.
    pub open spec fn snap_version(self) -> SnapVersion {
        files_version(self.levels[0]).spec_max(files_version(self.levels[1])).spec_max(
            self.l2_snap_version,
        )
    }
}

impl Data {
    /// There are three column families, three columnar levels and a memory table
    /// to write to.
    pub open spec fn wf(self) -> bool {
        &&& self.cfs.len() == NUM_CFS
        &&& self.col_levels.levels.len() == 3
        &&& self.mem_tbls.len() > 0
    }

    /// The same data, but for the order of the columnar files of a level.
    pub open spec fn reorders_columns(self, other: Data) -> bool {
        &&& self.col_levels.reorders(other.col_levels)
        &&& self == (Data { col_levels: self.col_levels, ..other })
    }

    /// The same data, but for the order of the columnar files of a level, of the vector
    /// indexes and their files, and of the dedicated full text files.
    pub open spec fn reorders(self, other: Data) -> bool {
        &&& self.col_levels.reorders(other.col_levels)
        &&& vector_bags(self.vector_indexes) == vector_bags(other.vector_indexes)
        &&& self.fts_l2_files.to_multiset() == other.fts_l2_files.to_multiset()
        &&& self == (Data {
            col_levels: self.col_levels,
            vector_indexes: self.vector_indexes,
            fts_l2_files: self.fts_l2_files,
            ..other
        })
    }

    /// Each level knows the highest timestamp of its tables.
    pub open spec fn max_ts_known(self) -> bool {
        forall|c: int, l: int|
            0 <= c < self.cfs.len() && 0 <= l < self.cfs[c].len() ==> (
            #[trigger] self.cfs[c][l]).max_ts == tables_max_ts(self.cfs[c][l].tables)
    }

    /// A shard with nothing in it.
    pub open spec fn empty(range: Range, inner_key_off: usize) -> Data {
        Data {
            range,
            inner_key_off,
            mem_tbls: seq![Mem::empty()],
            lock_txn_files: Seq::empty(),
            l0_tbls: Seq::empty(),
            blob_tbls: Seq::empty(),
            cfs: empty_cfs(),
            unloaded_tbls: Map::empty(),
            update_counter: 0,
            schema_version: 0,
            restore_version: 0,
            schema_file: None,
            col_levels: Columnar::empty(),
            vector_indexes: Seq::empty(),
            columnar_table_ids: Seq::empty(),
            fts_l0_files: Seq::empty(),
            fts_l1_files: Seq::empty(),
            fts_l2_files: Seq::empty(),
            persisted_version: SnapVersion { version: 0 },
        }
    }

    /// A key or a file lies outside the shard.
    pub open spec fn mem_over_bound(self) -> bool {
        exists|i: int|
            0 <= i < self.mem_tbls.len() && (#[trigger] self.mem_tbls[i]).over_bound(
                self.range.inner_bound(),
            )
    }

    /// From the lowest key of the first table of a level to the highest of the
    /// last.
    pub open spec fn level_bound(l: Level) -> Bound {
        Bound {
            lower: l.tables[0].bound().lower,
            upper: l.tables[l.tables.len() - 1].bound().upper,
            inclusive: true,
        }
    }

    /// A level reaches outside the bound.
    pub open spec fn level_over_bound(l: Level, b: Bound) -> bool {
        l.tables.len() > 0 && !b.covers(Self::level_bound(l))
    }

    /// A file reaches outside the shard.
    pub open spec fn file_over_bound(self) -> bool {
        let b = self.range.inner_bound();
        ||| exists|i: int| 0 <= i < self.l0_tbls.len() && !b.covers((#[trigger] self.l0_tbls[i]).bound())
        ||| exists|c: int, i: int|
            0 <= c < self.cfs.len() && 0 <= i < self.cfs[c].len() && Self::level_over_bound(
                #[trigger] self.cfs[c][i],
                b,
            )
        ||| exists|c: int, i: int|
            0 <= c < self.col_levels.levels.len() && 0 <= i < self.col_levels.levels[c].len()
                && !b.covers((#[trigger] self.col_levels.levels[c][i]).bound())
    }

    /// All data is in files.
    pub open spec fn persisted(self) -> bool {
        &&& self.mem_tbls.len() == 1
        &&& self.mem_tbls[0].size == 0
        &&& self.mem_tbls[0].unpersisted_props_size == 0
    }
}

/// The empty levels of a column family.
pub open spec fn empty_levels(cf: int) -> Seq<Level> {
    Seq::new(
        (3 - cf) as nat,
        |i: int| level_of(Seq::empty(), (i + 1) as usize),
    )
}

/// The empty column families.
pub open spec fn empty_cfs() -> Seq<Seq<Level>> {
    seq![empty_levels(0), empty_levels(1), empty_levels(2)]
}

/// The empty column families.
pub fn new_cfs() -> (res: Vec<ShardCf>)
    ensures
        Seq::new(res@.len(), |i: int| res@[i]@) == empty_cfs(),
{
    let mut cfs: Vec<ShardCf> = Vec::new();
    let a = ShardCf::new(0);
    let b = ShardCf::new(1);
    let c = ShardCf::new(2);
    assert(a@ =~~= empty_levels(0));
    assert(b@ =~~= empty_levels(1));
    assert(c@ =~~= empty_levels(2));
    cfs.push(a);
    cfs.push(b);
    cfs.push(c);
    assert(Seq::new(cfs@.len(), |i: int| cfs@[i]@) =~= empty_cfs());
    cfs
}

fn push_table_ids(
    tables: &Vec<SsTable>,
    distinguish: bool,
    local: &mut Vec<u64>,
    remote: &mut Vec<u64>,
    Ghost(before): Ghost<Seq<SsTable>>,
    Ghost(base): Ghost<Seq<u64>>,
)
    requires
        old(local)@ == base + local_ids(before, distinguish),
        old(remote)@ == remote_ids(before, distinguish),
    ensures
        final(local)@ == base + local_ids(before + tables@, distinguish),
        final(remote)@ == remote_ids(before + tables@, distinguish),
{
    let mut i: usize = 0;
    assert(before + tables@.take(0) =~= before);
    while i < tables.len()
        invariant
            i <= tables@.len(),
            local@ == base + local_ids(before + tables@.take(i as int), distinguish),
            remote@ == remote_ids(before + tables@.take(i as int), distinguish),
        decreases tables@.len() - i,
    {
        let t = &tables[i];
        proof {
            let s = before + tables@.take(i as int);
            let u = before + tables@.take(i + 1);
            assert(u.drop_last() =~= s);
            assert(u.last() == *t);
            assert(base + local_ids(s, distinguish).push(t.id) =~= (base + local_ids(
                s,
                distinguish,
            )).push(t.id));
        }
        if !distinguish || t.sync {
            local.push(t.id);
        } else {
            remote.push(t.id);
            if !t.storage_class_ia {
                local.push(t.id);
            }
        }
        i = i + 1;
    }
    assert(tables@.take(i as int) =~= tables@);
}

impl ShardData {
    /// A shard with nothing in it.
    pub fn new_empty(range: ShardRange, inner_key_off: usize) -> (res: Self)
        ensures
            res@ == Data::empty(range@, inner_key_off),
            res@.wf(),
    {
        let mut mem_tbls: Vec<MemTable> = Vec::new();
        mem_tbls.push(MemTable::new());
        let res = ShardData {
            range,
            inner_key_off,
            mem_tbls,
            lock_txn_files: Vec::new(),
            l0_tbls: Vec::new(),
            blob_tbls: Vec::new(),
            cfs: new_cfs(),
            unloaded_tbls: HashMap::new(),
            update_counter: 0,
            schema_version: 0,
            restore_version: 0,
            schema_file: None,
            col_levels: ColumnarLevels::new(),
            vector_indexes: Vec::new(),
            columnar_table_ids: Vec::new(),
            fts_l0_files: Vec::new(),
            fts_l1_files: Vec::new(),
            fts_l2_files: Vec::new(),
            persisted_version: SnapVersion::zero(),
        };
        assert(res@ =~= Data::empty(range@, inner_key_off));
        res
    }

    /// Whether tables of the level of the column family may be kept remote.
    pub fn can_use_ia(cf: usize, level: usize) -> (res: bool)
        ensures
            res == (cf == WRITE_CF && level > 0),
    {
        cf == WRITE_CF && level > 0
    }

    /// The ids of tables and blob tables, in order; of those with local files and
    /// of those that are read remotely. A table that is read remotely and not kept
    /// remote is in both. Where `distinguish_ia` is not asked for, all ids are in
    /// the first list.
    pub fn get_local_sst_files(&self, distinguish_ia: bool) -> (res: (Vec<u64>, Vec<u64>))
        ensures
            sorted_u64(res.0@),
            sorted_u64(res.1@),
            ({
                let tables = tables_of_cfs(self@.cfs);
                let first = ids_of_l0s(self@.l0_tbls) + ids_of_blobs(self@.blob_tbls);
                &&& res.0@.to_multiset() == (first + local_ids(tables, distinguish_ia)).to_multiset()
                &&& res.1@.to_multiset() == remote_ids(tables, distinguish_ia).to_multiset()
            }),
    {
        let mut local: Vec<u64> = Vec::new();
        let mut remote: Vec<u64> = Vec::new();
        let mut i: usize = 0;
        while i < self.l0_tbls.len()
            invariant
                i <= self.l0_tbls@.len(),
                local@ =~= ids_of_l0s(self.l0_tbls@.take(i as int)),
            decreases self.l0_tbls@.len() - i,
        {
            local.push(self.l0_tbls[i].id);
            i = i + 1;
        }
        assert(self.l0_tbls@.take(i as int) =~= self.l0_tbls@);
        let ghost l0s = ids_of_l0s(self@.l0_tbls);
        let mut b: usize = 0;
        while b < self.blob_tbls.len()
            invariant
                b <= self.blob_tbls@.len(),
                local@ =~= l0s + ids_of_blobs(self.blob_tbls@.take(b as int)),
            decreases self.blob_tbls@.len() - b,
        {
            local.push(self.blob_tbls[b].id);
            b = b + 1;
        }
        assert(self.blob_tbls@.take(b as int) =~= self.blob_tbls@);
        let ghost base = l0s + ids_of_blobs(self@.blob_tbls);
        let ghost cfs = self@.cfs;
        let mut c: usize = 0;
        proof {
            assert(cfs.take(0) =~= Seq::empty());
            assert(local@ =~= base + local_ids(tables_of_cfs(cfs.take(0)), distinguish_ia));
        }
        while c < self.cfs.len()
            invariant
                c <= self.cfs@.len(),
                cfs == self@.cfs,
                local@ == base + local_ids(tables_of_cfs(cfs.take(c as int)), distinguish_ia),
                remote@ == remote_ids(tables_of_cfs(cfs.take(c as int)), distinguish_ia),
            decreases self.cfs@.len() - c,
        {
            let scf = &self.cfs[c];
            let ghost levels = scf@;
            let ghost before = tables_of_cfs(cfs.take(c as int));
            let mut k: usize = 0;
            proof {
                assert(levels.take(0) =~= Seq::empty());
                assert(before + tables_of_levels(levels.take(0)) =~= before);
            }
            while k < scf.levels.len()
                invariant
                    k <= scf.levels@.len(),
                    levels == scf@,
                    local@ == base + local_ids(
                        before + tables_of_levels(levels.take(k as int)),
                        distinguish_ia,
                    ),
                    remote@ == remote_ids(
                        before + tables_of_levels(levels.take(k as int)),
                        distinguish_ia,
                    ),
                decreases scf.levels@.len() - k,
            {
                let ghost done = before + tables_of_levels(levels.take(k as int));
                push_table_ids(
                    &scf.levels[k].tables,
                    distinguish_ia,
                    &mut local,
                    &mut remote,
                    Ghost(done),
                    Ghost(base),
                );
                proof {
                    assert(levels.take(k + 1).drop_last() =~= levels.take(k as int));
                    assert(levels.take(k + 1).last() == scf.levels@[k as int]@);
                    assert(before + tables_of_levels(levels.take(k + 1)) =~= done
                        + scf.levels@[k as int].tables@);
                }
                k = k + 1;
            }
            proof {
                assert(levels.take(k as int) =~= levels);
                assert(cfs.take(c + 1).drop_last() =~= cfs.take(c as int));
                assert(cfs.take(c + 1).last() == levels);
            }
            c = c + 1;
        }
        assert(cfs.take(c as int) =~= cfs);
        (sort_u64s(&local), sort_u64s(&remote))
    }

    /// The ids of tables and blob tables, in order.
    pub fn get_all_sst_files(&self) -> (res: Vec<u64>)
        ensures
            sorted_u64(res@),
            res@.to_multiset() == (ids_of_l0s(self@.l0_tbls) + ids_of_blobs(self@.blob_tbls)
                + local_ids(tables_of_cfs(self@.cfs), false)).to_multiset(),
    {
        let (files, _) = self.get_local_sst_files(false);
        files
    }

    /// The chunks of transaction files, in order.
    pub fn get_txn_chunks(&self) -> (res: Vec<u64>)
        ensures
            sorted_u64(res@),
            res@.to_multiset() == (txn_chunks(self@.lock_txn_files) + mem_chunks(
                self@.mem_tbls,
            )).to_multiset(),
    {
        let mut files: Vec<u64> = Vec::new();
        let mut i: usize = 0;
        let ghost t = self@.lock_txn_files;
        assert(t.take(0) =~= Seq::empty());
        while i < self.lock_txn_files.len()
            invariant
                i <= self.lock_txn_files@.len(),
                t == self@.lock_txn_files,
                files@ == txn_chunks(t.take(i as int)),
            decreases self.lock_txn_files@.len() - i,
        {
            assert(t.take(i + 1).drop_last() =~= t.take(i as int));
            let ghost before = files@;
            files.extend_from_slice(self.lock_txn_files[i].chunk_ids.as_slice());
            assert(files@ =~= before + t[i as int].chunk_ids);
            i = i + 1;
        }
        assert(t.take(i as int) =~= t);
        let ghost first = files@;
        let ghost m = self@.mem_tbls;
        let mut k: usize = 0;
        assert(m.take(0) =~= Seq::empty());
        assert(files@ =~= first + mem_chunks(m.take(0)));
        while k < self.mem_tbls.len()
            invariant
                k <= self.mem_tbls@.len(),
                m == self@.mem_tbls,
                files@ == first + mem_chunks(m.take(k as int)),
            decreases self.mem_tbls@.len() - k,
        {
            assert(m.take(k + 1).drop_last() =~= m.take(k as int));
            let ghost before = files@;
            files.extend_from_slice(self.mem_tbls[k].txn_chunks.as_slice());
            assert(files@ =~= before + m[k as int].txn_chunks);
            assert(files@ =~= first + mem_chunks(m.take(k + 1)));
            k = k + 1;
        }
        assert(m.take(k as int) =~= m);
        sort_u64s(&files)
    }

    /// The ids of columnar files, level by level.
    pub fn get_all_col_files(&self) -> (res: Vec<u64>)
        ensures
            res@ == col_ids(self@.col_levels.levels),
    {
        let ghost s = self@.col_levels.levels;
        let mut res: Vec<u64> = Vec::new();
        let mut i: usize = 0;
        assert(s.take(0) =~= Seq::empty());
        while i < self.col_levels.levels.len()
            invariant
                i <= self.col_levels.levels@.len(),
                s == self@.col_levels.levels,
                res@ == col_ids(s.take(i as int)),
            decreases self.col_levels.levels@.len() - i,
        {
            let files = &self.col_levels.levels[i];
            let ghost before = res@;
            assert(s.take(i + 1).drop_last() =~= s.take(i as int));
            assert(s.take(i + 1).last() == files@);
            let mut j: usize = 0;
            while j < files.len()
                invariant
                    j <= files@.len(),
                    res@ =~= before + Seq::new(j as nat, |k: int| files@[k].id),
                decreases files@.len() - j,
            {
                res.push(files[j].id);
                j = j + 1;
            }
            i = i + 1;
        }
        assert(s.take(i as int) =~= s);
        res
    }

    /// The ids of columnar files, in order.
    pub fn get_all_columnar_files(&self) -> (res: Vec<u64>)
        ensures
            sorted_u64(res@),
            res@.to_multiset() == col_ids(self@.col_levels.levels).to_multiset(),
    {
        sort_u64s(&self.get_all_col_files())
    }

    /// The ids of the files of vector indexes, index by index.
    pub fn get_all_vec_idx_files(&self) -> (res: Vec<u64>)
        ensures
            res@ == vec_ids(self@.vector_indexes),
    {
        let ghost s = self@.vector_indexes;
        let mut res: Vec<u64> = Vec::new();
        let mut i: usize = 0;
        assert(s.take(0) =~= Seq::empty());
        while i < self.vector_indexes.len()
            invariant
                i <= self.vector_indexes@.len(),
                s == self@.vector_indexes,
                res@ == vec_ids(s.take(i as int)),
            decreases self.vector_indexes@.len() - i,
        {
            let files = &self.vector_indexes[i].files;
            let ghost before = res@;
            assert(s.take(i + 1).drop_last() =~= s.take(i as int));
            assert(s.take(i + 1).last().files == files@);
            let mut j: usize = 0;
            while j < files.len()
                invariant
                    j <= files@.len(),
                    res@ =~= before + Seq::new(j as nat, |k: int| files@[k].id),
                decreases files@.len() - j,
            {
                res.push(files[j].id);
                j = j + 1;
            }
            i = i + 1;
        }
        assert(s.take(i as int) =~= s);
        res
    }

    /// Whether a transaction file holds locks.
    pub fn has_txn_file_locks(&self) -> (res: bool)
        ensures
            res == (self@.lock_txn_files.len() > 0),
    {
        self.lock_txn_files.len() > 0
    }

    /// Number of columnar files of a level.
    pub fn get_col_table_counts(&self, level: usize) -> (res: usize)
        requires
            level < self@.col_levels.levels.len(),
        ensures
            res == self@.col_levels.levels[level as int].len(),
    {
        self.col_levels.levels[level].len()
    }

    /// The highest version of the columnar files.
    pub fn get_columnar_snap_version(&self) -> (res: SnapVersion)
        requires
            self@.wf(),
        ensures
            res == self@.col_levels.snap_version(),
    {
        let a = max_file_version(&self.col_levels.levels[0]);
        let b = max_file_version(&self.col_levels.levels[1]);
        a.higher(b).higher(self.col_levels.l2_snap_version)
    }

    /// The highest timestamp in memory.
    pub fn get_mem_table_max_ts(&self) -> (res: u64)
        ensures
            res == mem_max_ts(self@.mem_tbls),
    {
        let ghost m = self@.mem_tbls;
        let mut max_ts: u64 = 0;
        let mut i: usize = 0;
        assert(m.take(0) =~= Seq::empty());
        while i < self.mem_tbls.len()
            invariant
                i <= self.mem_tbls@.len(),
                m == self@.mem_tbls,
                max_ts == mem_max_ts(m.take(i as int)),
            decreases self.mem_tbls@.len() - i,
        {
            assert(m.take(i + 1).drop_last() =~= m.take(i as int));
            if max_ts < self.mem_tbls[i].max_ts {
                max_ts = self.mem_tbls[i].max_ts;
            }
            i = i + 1;
        }
        assert(m.take(i as int) =~= m);
        max_ts
    }

    /// The size of the data in memory.
    pub fn get_mem_table_size(&self) -> (res: u64)
        requires
            mem_size(self@.mem_tbls) <= u64::MAX,
        ensures
            res == mem_size(self@.mem_tbls),
    {
        let ghost m = self@.mem_tbls;
        let mut total: u64 = 0;
        let mut i: usize = 0;
        assert(m.take(0) =~= Seq::empty());
        while i < self.mem_tbls.len()
            invariant
                i <= self.mem_tbls@.len(),
                m == self@.mem_tbls,
                mem_size(m) <= u64::MAX,
                total == mem_size(m.take(i as int)),
            decreases self.mem_tbls@.len() - i,
        {
            proof {
                assert(m.take(i + 1).drop_last() =~= m.take(i as int));
                lemma_mem_size(m, i + 1);
            }
            total = total + self.mem_tbls[i].size;
            i = i + 1;
        }
        assert(m.take(i as int) =~= m);
        total
    }

    /// Whether all data is in files.
    pub fn all_persisted(&self) -> (res: bool)
        ensures
            res == self@.persisted(),
    {
        self.mem_tbls.len() == 1 && self.mem_tbls[0].size == 0
            && self.mem_tbls[0].unpersisted_props_size == 0
    }

    /// Whether a key in memory lies outside the shard.
    pub fn has_mem_over_bound_data(&self) -> (res: bool)
        ensures
            res == self@.mem_over_bound(),
    {
        let bound = self.range.data_bound();
        let mut i: usize = 0;
        while i < self.mem_tbls.len()
            invariant
                i <= self.mem_tbls@.len(),
                bound@ == self@.range.inner_bound(),
                forall|j: int| 0 <= j < i ==> !(#[trigger] self@.mem_tbls[j]).over_bound(bound@),
            decreases self.mem_tbls@.len() - i,
        {
            assert(self@.mem_tbls[i as int] == self.mem_tbls@[i as int]@);
            if self.mem_tbls[i].has_over_bound_data(bound) {
                return true;
            }
            i = i + 1;
        }
        false
    }

    /// Whether a file reaches outside the shard.
    pub fn has_file_over_bound_data(&self) -> (res: bool)
        ensures
            res == self@.file_over_bound(),
    {
        let bound = self.range.data_bound();
        let mut i: usize = 0;
        while i < self.l0_tbls.len()
            invariant
                i <= self.l0_tbls@.len(),
                bound@ == self@.range.inner_bound(),
                forall|j: int|
                    0 <= j < i ==> bound@.covers((#[trigger] self@.l0_tbls[j]).bound()),
            decreases self.l0_tbls@.len() - i,
        {
            if !bound.contains_bound(self.l0_tbls[i].data_bound()) {
                assert(!bound@.covers(self@.l0_tbls[i as int].bound()));
                return true;
            }
            i = i + 1;
        }
        let mut c: usize = 0;
        while c < self.cfs.len()
            invariant
                c <= self.cfs@.len(),
                bound@ == self@.range.inner_bound(),
                forall|a: int, j: int|
                    0 <= a < c && 0 <= j < self@.cfs[a].len() ==> !Data::level_over_bound(
                        #[trigger] self@.cfs[a][j],
                        bound@,
                    ),
            decreases self.cfs@.len() - c,
        {
            let levels = &self.cfs[c].levels;
            let mut k: usize = 0;
            while k < levels.len()
                invariant
                    k <= levels@.len(),
                    c < self.cfs@.len(),
                    *levels == self.cfs@[c as int].levels,
                    bound@ == self@.range.inner_bound(),
                    forall|j: int|
                        0 <= j < k ==> !Data::level_over_bound(
                            #[trigger] self@.cfs[c as int][j],
                            bound@,
                        ),
                decreases levels@.len() - k,
            {
                assert(self@.cfs[c as int][k as int] == levels@[k as int]@);
                if let Some(b) = levels[k].get_data_bound() {
                    if !bound.contains_bound(b) {
                        assert(Data::level_over_bound(self@.cfs[c as int][k as int], bound@));
                        return true;
                    }
                }
                k = k + 1;
            }
            c = c + 1;
        }
        let mut l: usize = 0;
        while l < self.col_levels.levels.len()
            invariant
                l <= self.col_levels.levels@.len(),
                bound@ == self@.range.inner_bound(),
                forall|a: int, j: int|
                    0 <= a < l && 0 <= j < self@.col_levels.levels[a].len() ==> bound@.covers(
                        (#[trigger] self@.col_levels.levels[a][j]).bound(),
                    ),
            decreases self.col_levels.levels@.len() - l,
        {
            let files = &self.col_levels.levels[l];
            let mut k: usize = 0;
            while k < files.len()
                invariant
                    k <= files@.len(),
                    l < self.col_levels.levels@.len(),
                    *files == self.col_levels.levels@[l as int],
                    bound@ == self@.range.inner_bound(),
                    forall|j: int|
                        0 <= j < k ==> bound@.covers(
                            (#[trigger] self@.col_levels.levels[l as int][j]).bound(),
                        ),
                decreases files@.len() - k,
            {
                assert(self@.col_levels.levels[l as int][k as int] == files@[k as int]);
                if !bound.contains_bound(files[k].data_bound()) {
                    return true;
                }
                k = k + 1;
            }
            l = l + 1;
        }
        false
    }

    /// Whether a key or a file reaches outside the shard.
    pub fn has_over_bound_data(&self) -> (res: bool)
        ensures
            res == (self@.mem_over_bound() || self@.file_over_bound()),
    {
        self.has_mem_over_bound_data() || self.has_file_over_bound_data()
    }

    /// The tables of level 0 that have no columnar file yet.
    pub fn get_unconverted_l0s(&self) -> (res: Vec<u64>)
        ensures
            res@ == ids_of_l0s(self@.col_levels.unconverted_l0s),
    {
        let v = &self.col_levels.unconverted_l0s;
        let mut res: Vec<u64> = Vec::new();
        let mut i: usize = 0;
        while i < v.len()
            invariant
                i <= v@.len(),
                res@ =~= ids_of_l0s(v@.take(i as int)),
            decreases v@.len() - i,
        {
            res.push(v[i].id);
            i = i + 1;
        }
        assert(v@.take(i as int) =~= v@);
        res
    }

    /// Whether a table of level 0 has no columnar file yet.
    pub fn has_unconverted_l0s(&self) -> (res: bool)
        ensures
            res == (self@.col_levels.unconverted_l0s.len() > 0),
    {
        self.col_levels.unconverted_l0s.len() > 0
    }

    /// Whether more tables of level 0 than are put up with have no columnar file.
    pub fn has_too_many_unconverted_l0s(&self) -> (res: bool)
        ensures
            res == (self@.col_levels.unconverted_l0s.len() > MAX_UNCONVERTED_L0_FILE_COUNTS),
    {
        self.col_levels.unconverted_l0s.len() > MAX_UNCONVERTED_L0_FILE_COUNTS
    }

    /// Whether the tables of committed data are on local disk.
    pub fn is_sync(&self) -> (res: bool)
        requires
            self@.wf(),
        ensures
            res == levels_sync(self@.cfs[0]),
    {
        self.cfs[WRITE_CF].is_sync()
    }

    /// The id of the schema file.
    pub fn schema_file_id(&self) -> (res: Option<u64>)
        ensures
            match self@.schema_file {
                Some(s) => res == Some(s.file_id),
                None => res is None,
            },
    {
        match &self.schema_file {
            Some(s) => Some(s.file_id),
            None => None,
        }
    }

    /// The tables that are kept as columns and that the schema file has too, in
    /// order.
    pub fn get_columnar_table_ids_in_schema(&self) -> (res: Vec<i64>)
        ensures
            match self@.schema_file {
                Some(s) => {
                    &&& sorted_i64(res@)
                    &&& res@.to_multiset() == self@.columnar_table_ids.filter(
                        |id: i64| s.columnar_tables.contains(id),
                    ).to_multiset()
                },
                None => res@.len() == 0,
            },
    {
        match &self.schema_file {
            Some(s) => {
                let tables = &s.columnar_tables;
                let keep = |id: &i64| -> (b: bool)
                    ensures
                        b == tables@.contains(*id),
                    {
                        contains_i64(tables, *id)
                    };
                let ids = retain_vec(
                    copy_i64s(&self.columnar_table_ids),
                    keep,
                    Ghost(|id: i64| tables@.contains(id)),
                );
                sort_i64s(&ids)
            },
            None => Vec::new(),
        }
    }
}

/// How many tables of level 0 without columnar files are put up with.
pub const MAX_UNCONVERTED_L0_FILE_COUNTS: usize = 32;

fn max_file_version(v: &Vec<ColumnarFile>) -> (res: SnapVersion)
    ensures
        res == files_version(v@),
{
    let mut res = SnapVersion::zero();
    let mut i: usize = 0;
    assert(v@.take(0) =~= Seq::empty());
    while i < v.len()
        invariant
            i <= v@.len(),
            res == files_version(v@.take(i as int)),
        decreases v@.len() - i,
    {
        assert(v@.take(i + 1).drop_last() =~= v@.take(i as int));
        let version = match v[i].snap_version {
            Some(x) => x,
            None => SnapVersion::zero(),
        };
        res = res.higher(version);
        i = i + 1;
    }
    assert(v@.take(i as int) =~= v@);
    res
}

proof fn lemma_mem_size(s: Seq<Mem>, i: int)
    requires
        0 <= i <= s.len(),
    ensures
        0 <= mem_size(s.take(i)) <= mem_size(s),
    decreases s.len(),
{
    if i == s.len() {
        assert(s.take(i) =~= s);
        if s.len() > 0 {
            let t = s.drop_last();
            lemma_mem_size(t, t.len() as int);
            assert(t.take(t.len() as int) =~= t);
        }
    } else {
        lemma_mem_size(s.drop_last(), i);
        assert(s.drop_last().take(i) =~= s.take(i));
    }
}

} // verus!
