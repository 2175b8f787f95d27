//! Data of a shard that takes the place of older data.
use std::collections::HashMap;
use vstd::prelude::*;

use crate::file_meta::{FileMeta, SnapVersion};
use crate::pb::VectorIndex;
use crate::range::ShardRange;
use crate::shard::data::{
    schema_of, BlobTable, ColumnarLevels, Data, FtsFile, L0Table, MemTable, SchemaFile, ShardData,
    TxnFile,
};
use crate::shard::levels::ShardCf;
use crate::vectors::vectors_of;

verus! {

/// Makes data that takes the place of older data: what is not set stays as it was.
pub struct ShardDataBuilder {
    data: ShardData,
}

impl View for ShardDataBuilder {
    type V = Data;

    /// What is set so far, and for the rest what was there.
    closed spec fn view(&self) -> Data {
        self.data@
    }
}

impl ShardDataBuilder {
    /// Nothing is set yet.
    pub fn new(old_data: ShardData) -> (res: Self)
        ensures
            res@ == old_data@,
    {
        ShardDataBuilder { data: old_data }
    }

    /// Sets the range.
    pub fn set_range(&mut self, range: ShardRange)
        ensures
            final(self)@ == (Data { range: range@, ..old(self)@ }),
    {
        self.data.range = range;
        assert(self@ =~= (Data { range: range@, ..old(self)@ }));
    }

    /// Sets how many leading bytes inner keys drop.
    pub fn set_inner_key_off(&mut self, inner_key_off: usize)
        ensures
            final(self)@ == (Data { inner_key_off, ..old(self)@ }),
    {
        self.data.inner_key_off = inner_key_off;
        assert(self@ =~= (Data { inner_key_off, ..old(self)@ }));
    }

    /// Sets the memory tables.
    pub fn set_mem_tbls(&mut self, mem_tbls: Vec<MemTable>)
        ensures
            final(self)@ == (Data {
                mem_tbls: Seq::new(mem_tbls@.len(), |i: int| mem_tbls@[i]@),
                ..old(self)@
            }),
    {
        self.data.mem_tbls = mem_tbls;
        assert(self@ =~= (Data {
                mem_tbls: Seq::new(mem_tbls@.len(), |i: int| mem_tbls@[i]@),
                ..old(self)@
            }));
    }

    /// Sets the tables of level 0.
    pub fn set_l0_tbls(&mut self, l0_tbls: Vec<L0Table>)
        ensures
            final(self)@ == (Data { l0_tbls: l0_tbls@, ..old(self)@ }),
    {
        self.data.l0_tbls = l0_tbls;
        assert(self@ =~= (Data { l0_tbls: l0_tbls@, ..old(self)@ }));
    }

    /// Sets the levels of each column family.
    pub fn set_cfs(&mut self, cfs: Vec<ShardCf>)
        ensures
            final(self)@ == (Data { cfs: Seq::new(cfs@.len(), |i: int| cfs@[i]@), ..old(self)@ }),
    {
        self.data.cfs = cfs;
        assert(self@ =~= (Data { cfs: Seq::new(cfs@.len(), |i: int| cfs@[i]@), ..old(self)@ }));
    }

    /// Sets the tables that are not loaded yet.
    pub fn set_unloaded_tbls(&mut self, unloaded_tbls: HashMap<u64, FileMeta>)
        ensures
            final(self)@ == (Data { unloaded_tbls: unloaded_tbls@, ..old(self)@ }),
    {
        self.data.unloaded_tbls = unloaded_tbls;
        assert(self@ =~= (Data { unloaded_tbls: unloaded_tbls@, ..old(self)@ }));
    }

    /// Sets the blob tables.
    pub fn set_blob_tbls(&mut self, blob_tbls: Vec<BlobTable>)
        ensures
            final(self)@ == (Data { blob_tbls: blob_tbls@, ..old(self)@ }),
    {
        self.data.blob_tbls = blob_tbls;
        assert(self@ =~= (Data { blob_tbls: blob_tbls@, ..old(self)@ }));
    }

    /// Sets the transaction files that hold locks.
    pub fn set_lock_txn_files(&mut self, lock_txn_files: Vec<TxnFile>)
        ensures
            final(self)@ == (Data {
                lock_txn_files: Seq::new(lock_txn_files@.len(), |i: int| lock_txn_files@[i]@),
                ..old(self)@
            }),
    {
        self.data.lock_txn_files = lock_txn_files;
        assert(self@ =~= (Data {
                lock_txn_files: Seq::new(lock_txn_files@.len(), |i: int| lock_txn_files@[i]@),
                ..old(self)@
            }));
    }

    /// Sets the schema.
    pub fn set_schema(
        &mut self,
        schema_version: i64,
        restore_version: u64,
        schema_file: Option<SchemaFile>,
    )
        requires
            schema_file is Some ==> schema_file->0.version == schema_version,
        ensures
            final(self)@ == (Data {
                schema_version,
                restore_version,
                schema_file: schema_of(schema_file),
                ..old(self)@
            }),
    {
        self.data.schema_version = schema_version;
        self.data.restore_version = restore_version;
        self.data.schema_file = schema_file;
        assert(self@ =~= (Data {
            schema_version,
            restore_version,
            schema_file: schema_of(schema_file),
            ..old(self)@
        }));
    }

    /// Says that there is no schema.
    pub fn clear_schema(&mut self, restore_version: u64)
        ensures
            final(self)@ == (Data {
                schema_version: 0,
                restore_version,
                schema_file: None,
                ..old(self)@
            }),
    {
        self.set_schema(0, restore_version, None);
    }

    /// Sets the columnar files.
    pub fn set_columnar_levels(&mut self, col_levels: ColumnarLevels)
        ensures
            final(self)@ == (Data { col_levels: col_levels@, ..old(self)@ }),
    {
        self.data.col_levels = col_levels;
        assert(self@ =~= (Data { col_levels: col_levels@, ..old(self)@ }));
    }

    /// Sets the vector indexes.
    pub fn set_vector_indexes(&mut self, vector_indexes: Vec<VectorIndex>)
        ensures
            final(self)@ == (Data { vector_indexes: vectors_of(vector_indexes@), ..old(self)@ }),
    {
        self.data.vector_indexes = vector_indexes;
        assert(self@ =~= (Data { vector_indexes: vectors_of(vector_indexes@), ..old(self)@ }));
    }

    /// Sets the tables that are kept as columns.
    pub fn set_columnar_table_ids(&mut self, columnar_table_ids: Vec<i64>)
        ensures
            final(self)@ == (Data { columnar_table_ids: columnar_table_ids@, ..old(self)@ }),
    {
        self.data.columnar_table_ids = columnar_table_ids;
        assert(self@ =~= (Data { columnar_table_ids: columnar_table_ids@, ..old(self)@ }));
    }

    /// Sets the full text files of each level.
    pub fn set_fts_levels(
        &mut self,
        fts_l0_files: Vec<FtsFile>,
        fts_l1_files: Vec<FtsFile>,
        fts_l2_files: Vec<FtsFile>,
    )
        ensures
            final(self)@ == (Data {
                fts_l0_files: fts_l0_files@,
                fts_l1_files: fts_l1_files@,
                fts_l2_files: fts_l2_files@,
                ..old(self)@
            }),
    {
        self.data.fts_l0_files = fts_l0_files;
        self.data.fts_l1_files = fts_l1_files;
        self.data.fts_l2_files = fts_l2_files;
        assert(self@ =~= (Data {
            fts_l0_files: fts_l0_files@,
            fts_l1_files: fts_l1_files@,
            fts_l2_files: fts_l2_files@,
            ..old(self)@
        }));
    }

    /// Sets the version of the data in files.
    pub fn set_persisted_version(&mut self, persisted_version: SnapVersion)
        ensures
            final(self)@ == (Data { persisted_version, ..old(self)@ }),
    {
        self.data.persisted_version = persisted_version;
        assert(self@ =~= (Data { persisted_version, ..old(self)@ }));
    }

    /// The data. It counts one replacement more than what it takes the place of.
    pub fn build(self) -> (res: ShardData)
        requires
            self@.update_counter < u64::MAX,
        ensures
            res@ == (Data { update_counter: (self@.update_counter + 1) as u64, ..self@ }),
    {
        let mut data = self.data;
        data.update_counter = data.update_counter + 1;
        assert(data@ =~= (Data { update_counter: (self@.update_counter + 1) as u64, ..self@ }));
        data
    }
}

} // verus!
