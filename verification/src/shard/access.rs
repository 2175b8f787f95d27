//! What a shard says of itself.
use bytes::Bytes;
use vstd::prelude::*;

use crate::del_prefixes::DeletePrefixes;
use crate::limiter::RegionLimiter;
use crate::pb::StorageClassSpec;
use crate::read::snap::SnapAccessCore;
use crate::shard::data::{mem_max_ts, mem_size, MemTable, SchemaFile, ShardData};
use crate::shard::ops::Shard;
use crate::shard::state::{refreshed_states, states_of, IdVer, ShardTag};
use crate::shard::stats::{l0_sums, l0_sums_fit, LevelStatsLite};
use crate::WRITE_CF;

verus! {

impl Shard {
    /// What is added to a sequence to make a version.
    pub fn get_base_version(&self) -> (res: u64)
        ensures
            res == self.base_version,
    {
        self.base_version
    }

    /// Sequence of the last write.
    pub fn get_write_sequence(&self) -> (res: u64)
        ensures
            res == self.write_sequence,
    {
        self.write_sequence
    }

    /// Sequence of the last change set.
    pub fn get_meta_sequence(&self) -> (res: u64)
        ensures
            res == self.meta_seq,
    {
        self.meta_seq
    }

    /// Size of the files and of the blobs that they refer to.
    pub fn get_estimated_size(&self) -> (res: u64)
        ensures
            res == self.estimated_size,
    {
        self.estimated_size
    }

    /// Number of entries.
    pub fn get_estimated_entries(&self) -> (res: u64)
        ensures
            res == self.estimated_entries,
    {
        self.estimated_entries
    }

    /// Highest timestamp of the files.
    pub fn get_sst_max_ts(&self) -> (res: u64)
        ensures
            res == self.sst_max_ts,
    {
        self.sst_max_ts
    }

    /// Size of keys and values.
    pub fn get_estimated_kv_size(&self) -> (res: u64)
        ensures
            res == self.estimated_kv_size,
    {
        self.estimated_kv_size
    }

    /// Size of keys and values of tables that are kept remote.
    pub fn get_estimated_ia_kv_size(&self) -> (res: u64)
        ensures
            res == self.estimated_ia_kv_size,
    {
        self.estimated_ia_kv_size
    }

    /// Size of columnar files.
    pub fn get_estimated_columnar_size(&self) -> (res: u64)
        ensures
            res == self.estimated_columnar_size,
    {
        self.estimated_columnar_size
    }

    /// Size of keys and values of columnar files.
    pub fn get_estimated_columnar_kv_size(&self) -> (res: u64)
        ensures
            res == self.estimated_columnar_kv_size,
    {
        self.estimated_columnar_kv_size
    }

    /// Whether the first flush is done.
    pub fn get_initial_flushed(&self) -> (res: bool)
        ensures
            res == self.initial_flushed,
    {
        self.initial_flushed
    }

    /// Whether a compaction is running.
    pub fn is_compacting(&self) -> (res: bool)
        ensures
            res == self.compacting,
    {
        self.compacting
    }

    /// Whether data outside the range is to be removed.
    pub fn get_trim_over_bound(&self) -> (res: bool)
        ensures
            res == self.pending_ops.trim_over_bound,
    {
        self.pending_ops.trim_over_bound
    }

    /// The time above which versions are to be removed.
    pub fn get_truncate_ts(&self) -> (res: Option<u64>)
        ensures
            res == self.pending_ops.truncate_ts,
    {
        self.pending_ops.truncate_ts
    }

    /// Where data of which age is to be kept.
    pub fn get_storage_class_spec(&self) -> (res: StorageClassSpec)
        ensures
            res == self.pending_ops.storage_class_spec,
    {
        self.pending_ops.storage_class_spec
    }

    /// Version of the schema that was looked at last.
    pub fn get_checked_schema_ver(&self) -> (res: i64)
        ensures
            res == self.checked_schema_ver,
    {
        self.checked_schema_ver
    }

    /// Version of a schema that was found too old.
    pub fn get_outdated_schema_ver(&self) -> (res: i64)
        ensures
            res == self.outdated_schema_ver,
    {
        self.outdated_schema_ver
    }

    /// Sets what is added to a sequence to make a version.
    pub fn set_base_version(&mut self, base_version: u64)
        ensures
            *final(self) == (Shard { base_version, ..*old(self) }),
    {
        self.base_version = base_version;
    }

    /// Sets the sequence of the last write.
    pub fn update_write_sequence_on_recover(&mut self, write_sequence: u64)
        ensures
            *final(self) == (Shard { write_sequence, ..*old(self) }),
    {
        self.write_sequence = write_sequence;
    }

    /// Sets the version of the schema that was looked at last.
    pub fn set_checked_schema_ver(&mut self, checked_schema_ver: i64)
        ensures
            *final(self) == (Shard { checked_schema_ver, ..*old(self) }),
    {
        self.checked_schema_ver = checked_schema_ver;
    }

    /// Sets the version of a schema that was found too old.
    pub fn set_outdated_schema_ver(&mut self, outdated_schema_ver: i64)
        ensures
            *final(self) == (Shard { outdated_schema_ver, ..*old(self) }),
    {
        self.outdated_schema_ver = outdated_schema_ver;
    }

    /// Prefixes whose keys are to be deleted.
    pub fn get_del_prefixes(&self) -> (res: &DeletePrefixes)
        ensures
            *res == self.pending_ops.del_prefixes,
    {
        &self.pending_ops.del_prefixes
    }

    /// Whether data is to be kept as the specification says.
    pub fn storage_class_spec_equals(&self, spec: &StorageClassSpec) -> (res: bool)
        ensures
            res == (self.pending_ops.storage_class_spec == *spec),
    {
        self.pending_ops.storage_class_spec == *spec
    }

    /// The schema file, if there is one.
    pub fn get_schema_file(&self) -> (res: Option<&SchemaFile>)
        ensures
            res is Some == self.data.schema_file is Some,
            res is Some ==> *res->0 == self.data.schema_file->0,
    {
        self.data.schema_file.as_ref()
    }

    /// Encrypted key of the files.
    pub fn get_encryption_key(&self) -> (res: Option<Bytes>)
        ensures
            res == self.encryption_key,
    {
        match &self.encryption_key {
            Some(key) => Some(key.clone()),
            None => None,
        }
    }

    /// The memory table that is written to.
    pub fn get_writable_mem_table(&self) -> (res: &MemTable)
        requires
            self.data@.mem_tbls.len() > 0,
        ensures
            res@ == self.data@.mem_tbls[0],
    {
        self.data.get_writable_mem_table()
    }

    /// A snapshot of the shard as it is.
    pub fn new_snap_access(&self, read_columnar: bool) -> (res: SnapAccessCore)
        requires
            self.data@.wf(),
        ensures
            res.tag == (ShardTag {
                engine_id: self.engine_id,
                id_ver: IdVer { id: self.id, ver: self.ver },
            }),
            res.managed_ts == 0,
            res.base_version == self.base_version,
            res.meta_seq == self.meta_seq,
            res.write_sequence == self.write_sequence,
            res.data@ == self.data@,
            res.encryption_key == self.encryption_key,
            res.is_sync == crate::shard::levels::levels_sync(self.data@.cfs[WRITE_CF as int]),
            res.read_columnar == read_columnar,
    {
        SnapAccessCore::new(self, read_columnar)
    }

    /// Takes over what the statistics of all levels say. What `limiter` slows down follows
    /// the sizes of the memory tables and of level 0.
    pub fn refresh_estimated_size_and_entries(
        &mut self,
        stats: &LevelStatsLite,
        limiter: &mut RegionLimiter,
    )
        requires
            stats.data_size + stats.blob_size <= u64::MAX,
            mem_size(old(self).data@.mem_tbls) <= u64::MAX,
            l0_sums_fit(l0_sums(old(self).data@.l0_tbls, old(self).data@.range.inner_bound())),
            old(limiter).memtable.options.wf(),
            old(limiter).l0table.options.wf(),
        ensures
            ({
                let states = states_of(*stats, mem_max_ts(old(self).data@.mem_tbls));
                *final(self) == (Shard {
                    estimated_size: states.estimated_size,
                    estimated_entries: states.estimated_entries,
                    sst_max_ts: states.sst_max_ts,
                    max_ts: states.max_ts,
                    estimated_kv_size: states.estimated_kv_size,
                    estimated_ia_kv_size: states.estimated_ia_kv_size,
                    estimated_columnar_size: states.estimated_columnar_size,
                    estimated_columnar_kv_size: states.estimated_columnar_kv_size,
                    gc_stats: states.gc_stats,
                    ..*old(self)
                })
            }),
            limiter_follows(*old(limiter), *final(limiter), old(self).data),
    {
        let states = refreshed_states(stats, self.data.get_mem_table_max_ts());
        self.estimated_size = states.estimated_size;
        self.estimated_entries = states.estimated_entries;
        self.sst_max_ts = states.sst_max_ts;
        self.max_ts = states.max_ts;
        self.estimated_kv_size = states.estimated_kv_size;
        self.estimated_ia_kv_size = states.estimated_ia_kv_size;
        self.estimated_columnar_size = states.estimated_columnar_size;
        self.estimated_columnar_kv_size = states.estimated_columnar_kv_size;
        self.gc_stats = states.gc_stats;
        self.data.refresh_for_limiter(limiter);
    }
}

/// The limiter knows how large the memory tables and level 0 are.
pub open spec fn limiter_follows(
    before: RegionLimiter,
    after: RegionLimiter,
    data: ShardData,
) -> bool {
    let mem = mem_size(data@.mem_tbls) as u64;
    let l0 = l0_sums(data@.l0_tbls, data@.range.inner_bound()).data_size as u64;
    &&& after.memtable.options == before.memtable.options
    &&& after.l0table.options == before.l0table.options
    &&& after.memtable.throttle == before.memtable.options.after_usage(
        before.memtable.throttle,
        mem,
    )
    &&& after.l0table.throttle == before.l0table.options.after_usage(before.l0table.throttle, l0)
}

impl ShardData {
    /// The memory table that is written to.
    pub fn get_writable_mem_table(&self) -> (res: &MemTable)
        requires
            self@.mem_tbls.len() > 0,
        ensures
            res@ == self@.mem_tbls[0],
    {
        &self.mem_tbls[0]
    }

    /// Tells the limiter how large the memory tables and level 0 are.
    pub fn refresh_for_limiter(&self, limiter: &mut RegionLimiter)
        requires
            mem_size(self@.mem_tbls) <= u64::MAX,
            l0_sums_fit(l0_sums(self@.l0_tbls, self@.range.inner_bound())),
            old(limiter).memtable.options.wf(),
            old(limiter).l0table.options.wf(),
        ensures
            limiter_follows(*old(limiter), *final(limiter), *self),
    {
        let mem_table_size = self.get_mem_table_size();
        let l0_table_size = self.get_l0_total_size();
        limiter.update_usage(mem_table_size, l0_table_size);
    }
}

} // verus!
