//! Shards that are made of a change set and of opened tables.
use std::collections::HashMap;
use vstd::prelude::*;

use crate::buf::content;
use crate::file_meta::FileMeta;
use crate::pb;
use crate::pb::{StorageClassSpec, VectorIndex};
use crate::properties::{opt_value, props_valid, set_opt, ENCRYPTION_KEY};
use crate::range::Range;
use crate::shard::builder::ShardDataBuilder;
use crate::shard::data::{
    schema_of, BlobTable, ColumnarLevels, Data, L0Table, Mem, MemTable, SchemaFile, TxnFile,
};
use crate::shard::levels::ShardCf;
use crate::shard::ops::{nothing_known, pending_valid, Pending, Shard};
use crate::vectors::vectors_of;

verus! {

/// The opened files of a snapshot, by their places.
pub struct SnapshotTables {
    /// Tables of level 0.
    pub l0_tbls: Vec<L0Table>,
    /// Levels of each column family.
    pub cfs: Vec<ShardCf>,
    /// Blob tables.
    pub blob_tbls: Vec<BlobTable>,
    /// Transaction files that hold locks.
    pub lock_txn_files: Vec<TxnFile>,
    /// Tables that are not loaded.
    pub unloaded_tbls: HashMap<u64, FileMeta>,
    /// Columnar files.
    pub col_levels: ColumnarLevels,
    /// Vector indexes.
    pub vector_indexes: Vec<VectorIndex>,
    /// Tables that are kept as columns.
    pub columnar_table_ids: Vec<i64>,
    /// Version of the schema.
    pub schema_version: i64,
    /// Version of the last restore.
    pub restore_version: u64,
    /// Schema file.
    pub schema_file: Option<SchemaFile>,
}

/// The memory tables that are given, or one that is empty.
pub open spec fn mems_or_one(mems: Seq<MemTable>) -> Seq<Mem> {
    if mems.len() == 0 {
        seq![Mem::empty()]
    } else {
        Seq::new(mems.len(), |i: int| mems[i]@)
    }
}

/// The data of a shard that is made of a snapshot.
pub open spec fn data_of(snap: pb::Snapshot, mems: Seq<MemTable>, tables: SnapshotTables) -> Data {
    let range = Range::between(content(snap.outer_start), content(snap.outer_end));
    let empty = Data::empty(range, snap.inner_key_off as usize);
    Data {
        mem_tbls: mems_or_one(mems),
        l0_tbls: tables.l0_tbls@,
        cfs: Seq::new(tables.cfs@.len(), |i: int| tables.cfs@[i]@),
        blob_tbls: tables.blob_tbls@,
        lock_txn_files: Seq::new(
            tables.lock_txn_files@.len(),
            |i: int| tables.lock_txn_files@[i]@,
        ),
        unloaded_tbls: tables.unloaded_tbls@,
        col_levels: tables.col_levels@,
        vector_indexes: vectors_of(tables.vector_indexes@),
        columnar_table_ids: tables.columnar_table_ids@,
        schema_version: tables.schema_version,
        restore_version: tables.restore_version,
        schema_file: schema_of(tables.schema_file),
        update_counter: (empty.update_counter + 1) as u64,
        ..empty
    }
}

impl Shard {
    /// The shard of a snapshot that only reads: it belongs to no store. `mem_tbls` are
    /// memory tables that came with the snapshot; there is always one.
    pub fn from_change_set(
        cs: &pb::ChangeSet,
        mem_tbls: Vec<MemTable>,
        tables: SnapshotTables,
        schedule_at: u64,
        storage_class: StorageClassSpec,
    ) -> (res: Self)
        requires
            cs.snapshot matches Some(snap) && (snap.properties matches Some(props)
                ==> props_valid(props) && pending_valid(props)),
            tables.schema_file is Some ==> tables.schema_file->0.version == tables.schema_version,
        ensures
            ({
                let snap = cs.snapshot->0;
                let props = snap.properties;
                let range = Range::between(content(snap.outer_start), content(snap.outer_end));
                &&& res.engine_id == 0
                &&& res.id == cs.shard_id
                &&& res.ver == cs.shard_ver
                &&& res.range@ == range
                &&& res.data@ == data_of(snap, mem_tbls@, tables)
                &&& res.properties@ == set_opt(Map::empty(), props)
                &&& res.pending_ops@ == Pending::of_opt(
                    props,
                    range.keyspace_id,
                    schedule_at,
                    storage_class,
                )
                &&& res.initial_flushed == (cs.parent is None)
                &&& res.parent_id == match cs.parent {
                    Some(parent) => parent.shard_id,
                    None => 0,
                }
                &&& res.base_version == snap.base_version
                &&& res.meta_seq == cs.sequence
                &&& res.write_sequence == snap.data_sequence
                &&& res.encryption_key == opt_value(ENCRYPTION_KEY@, props)
                &&& !res.active
                &&& nothing_known(res)
            }),
    {
        let ghost given = mem_tbls@;
        let mut mem_tbls = mem_tbls;
        if mem_tbls.len() == 0 {
            mem_tbls.push(MemTable::new());
        }
        let mut shard = Shard::new_for_ingest(0, cs, schedule_at, storage_class);
        let mut builder = ShardDataBuilder::new(shard.data.copy());
        let ghost all = mem_tbls@;
        assert(Seq::new(all.len(), |i: int| all[i]@) =~= mems_or_one(given));
        builder.set_mem_tbls(mem_tbls);
        builder.set_l0_tbls(tables.l0_tbls);
        builder.set_cfs(tables.cfs);
        builder.set_blob_tbls(tables.blob_tbls);
        builder.set_lock_txn_files(tables.lock_txn_files);
        builder.set_unloaded_tbls(tables.unloaded_tbls);
        builder.set_columnar_levels(tables.col_levels);
        builder.set_vector_indexes(tables.vector_indexes);
        builder.set_columnar_table_ids(tables.columnar_table_ids);
        builder.set_schema(tables.schema_version, tables.restore_version, tables.schema_file);
        shard.id = cs.shard_id;
        shard.set_data(builder.build());
        shard
    }
}

} // verus!
