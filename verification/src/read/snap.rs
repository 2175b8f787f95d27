//! A snapshot of a shard.
use bytes::Bytes;
use std::collections::HashMap;
use vstd::prelude::*;

use crate::bound::{Bound, BoundedDataSet, DataBound, InnerKey};
use crate::file_meta::SnapVersion;
use crate::keyspace::{inner_end_of, inner_of};
use crate::pb::ChangeSet;
use crate::read::change_set::{
    cache_key, cache_key_of, levels_ordered, snapshot_for, to_change_set, KeyRange, SnapInfo,
};
use crate::read::get::{get_read_ts, read_ts};
use crate::read::iter::Iterator;
use crate::read::rows::TableIterator;
use crate::shard::data::{ColumnarFile, SchemaFile, ShardData, TxnFile};
use crate::shard::ops::Shard;
use crate::shard::state::{IdVer, ShardTag};
use crate::{CF_MANAGED, NUM_CFS, WRITE_CF};

verus! {

/// A snapshot of a shard.
pub struct SnapAccessCore {
    /// The shard.
    pub tag: ShardTag,
    /// The time at which transactions read, if it is set.
    pub managed_ts: u64,
    /// What is added to a sequence to make a version.
    pub base_version: u64,
    /// Sequence of the last change of the metadata.
    pub meta_seq: u64,
    /// Sequence of the last write.
    pub write_sequence: u64,
    /// The data.
    pub data: ShardData,
    /// The key that the data is encrypted with, as it is handed out.
    pub encryption_key: Option<Bytes>,
    /// The files are on local disk.
    pub is_sync: bool,
    /// Tables that are kept as columns are read as such.
    pub read_columnar: bool,
}

/// The files of the first `n` levels, each with its level.
pub open spec fn leveled(levels: Seq<Seq<ColumnarFile>>, n: int) -> Seq<(ColumnarFile, usize)>
    decreases n,
{
    if n <= 0 {
        Seq::empty()
    } else {
        leveled(levels, n - 1) + Seq::new(
            levels[n - 1].len(),
            |i: int| (levels[n - 1][i], (n - 1) as usize),
        )
    }
}

impl BoundedDataSet for SnapAccessCore {
    open spec fn bound(&self) -> Bound {
        self.data.range@.inner_bound()
    }

    fn data_bound(&self) -> (res: DataBound<'_>) {
        self.data.range.data_bound()
    }
}

impl SnapAccessCore {
    /// A snapshot of the shard as it is.
    pub fn new(shard: &Shard, read_columnar: bool) -> (res: Self)
        requires
            shard.data@.wf(),
        ensures
            res.tag == (ShardTag {
                engine_id: shard.engine_id,
                id_ver: IdVer { id: shard.id, ver: shard.ver },
            }),
            res.managed_ts == 0,
            res.base_version == shard.base_version,
            res.meta_seq == shard.meta_seq,
            res.write_sequence == shard.write_sequence,
            res.data@ == shard.data@,
            res.encryption_key == shard.encryption_key,
            res.is_sync == crate::shard::levels::levels_sync(shard.data@.cfs[WRITE_CF as int]),
            res.read_columnar == read_columnar,
    {
        let data = shard.data.copy();
        let is_sync = data.is_sync();
        let encryption_key = match &shard.encryption_key {
            Some(key) => Some(key.clone()),
            None => None,
        };
        SnapAccessCore {
            tag: shard.tag(),
            managed_ts: 0,
            base_version: shard.base_version,
            meta_seq: shard.meta_seq,
            write_sequence: shard.write_sequence,
            data,
            encryption_key,
            is_sync,
            read_columnar,
        }
    }

    /// Sets the time at which transactions read.
    pub fn set_managed_ts(&mut self, managed_ts: u64)
        ensures
            *final(self) == (SnapAccessCore { managed_ts, ..*old(self) }),
    {
        self.managed_ts = managed_ts;
    }

    /// Version of the last write.
    pub fn get_mem_table_snap_version(&self) -> (res: SnapVersion)
        requires
            self.base_version + self.write_sequence <= u64::MAX,
        ensures
            res.version == self.base_version + self.write_sequence,
    {
        SnapVersion::new(self.base_version, self.write_sequence)
    }

    /// The shard.
    pub fn get_tag(&self) -> (res: ShardTag)
        ensures
            res == self.tag,
    {
        self.tag
    }

    /// Id of the shard.
    pub fn get_id(&self) -> (res: u64)
        ensures
            res == self.tag.id_ver.id,
    {
        self.tag.id_ver.id
    }

    /// Version of its range.
    pub fn get_version(&self) -> (res: u64)
        ensures
            res == self.tag.id_ver.ver,
    {
        self.tag.id_ver.ver
    }

    /// Sequence of the last change of the metadata.
    pub fn get_meta_seq(&self) -> (res: u64)
        ensures
            res == self.meta_seq,
    {
        self.meta_seq
    }

    /// Sequence of the last write.
    pub fn get_write_sequence(&self) -> (res: u64)
        ensures
            res == self.write_sequence,
    {
        self.write_sequence
    }

    /// How many leading bytes inner keys drop.
    pub fn get_inner_key_offset(&self) -> (res: usize)
        ensures
            res == self.data.inner_key_off,
    {
        self.data.inner_key_off
    }

    /// The keyspace of the shard.
    pub fn get_keyspace_id(&self) -> (res: u32)
        ensures
            res == self.data.range.keyspace_id,
    {
        self.data.range.keyspace_id
    }

    /// First key.
    pub fn clone_start_key(&self) -> (res: Bytes)
        ensures
            res == self.data.range.outer_start,
    {
        self.data.range.outer_start.clone()
    }

    /// Where the keys end.
    pub fn clone_end_key(&self) -> (res: Bytes)
        ensures
            res == self.data.range.outer_end,
    {
        self.data.range.outer_end.clone()
    }

    /// The schema file, if there is one.
    pub fn get_schema_file(&self) -> (res: Option<&SchemaFile>)
        ensures
            res is Some == self.data.schema_file is Some,
            res is Some ==> *res->0 == self.data.schema_file->0,
    {
        self.data.schema_file.as_ref()
    }

    /// The key that the data is encrypted with, as it is handed out.
    pub fn get_encryption_key(&self) -> (res: Option<Bytes>)
        ensures
            res == self.encryption_key,
    {
        match &self.encryption_key {
            Some(key) => Some(key.clone()),
            None => None,
        }
    }

    /// Files of transactions that hold locks.
    pub fn get_lock_txn_files(&self) -> (res: &[TxnFile])
        ensures
            res@ == self.data.lock_txn_files@,
    {
        self.data.lock_txn_files.as_slice()
    }

    /// The version at which a reader reads a column family.
    pub fn get_read_ts(&self, cf: usize, asked: Option<u64>) -> (res: u64)
        requires
            cf < NUM_CFS,
            self.base_version + self.write_sequence <= u64::MAX,
        ensures
            res == read_ts(
                cf as int,
                asked,
                self.managed_ts,
                SnapVersion { version: (self.base_version + self.write_sequence) as u64 },
            ),
    {
        get_read_ts(cf, asked, self.managed_ts, self.get_mem_table_snap_version())
    }

    /// A walk over what a reader sees of a column family. `inner` walks over the rows of
    /// its tables.
    pub fn new_iterator<I: TableIterator>(
        &self,
        cf: usize,
        reversed: bool,
        all_versions: bool,
        asked: Option<u64>,
        inner: I,
    ) -> (res: Iterator<I>)
        requires
            cf < NUM_CFS,
            self.base_version + self.write_sequence <= u64::MAX,
            self.data.range@.valid(),
            inner.walk().wf(),
            inner.walk().nth == 0,
            inner.walk().reversed == reversed,
        ensures
            res.wf(),
            res.all_versions == all_versions,
            res.reversed == reversed,
            res.read_ts == read_ts(
                cf as int,
                asked,
                self.managed_ts,
                SnapVersion { version: (self.base_version + self.write_sequence) as u64 },
            ),
            res.val is None,
            res.inner == inner,
            res.data == self.data.range,
            res.inner_key_off == self.data.inner_key_off,
            res.range is None,
    {
        Iterator::new(
            inner,
            self.data.range.clone(),
            self.data.inner_key_off,
            reversed,
            all_versions,
            self.get_read_ts(cf, asked),
        )
    }

    /// A walk that shows what is in blob tables as it is in the other tables. Where no
    /// version is asked for, and none is set, it sees everything.
    pub fn new_iterator_skip_blob<I: TableIterator>(
        &self,
        cf: usize,
        reversed: bool,
        all_versions: bool,
        asked: Option<u64>,
        inner: I,
    ) -> (res: Iterator<I>)
        requires
            cf < NUM_CFS,
            self.data.range@.valid(),
            inner.walk().wf(),
            inner.walk().nth == 0,
            inner.walk().reversed == reversed,
        ensures
            res.wf(),
            res.all_versions == all_versions,
            res.reversed == reversed,
            res.read_ts == (match asked {
                Some(ts) => ts,
                None => if CF_MANAGED[cf as int] && self.managed_ts != 0 {
                    self.managed_ts
                } else {
                    u64::MAX
                },
            }),
            res.val is None,
            res.inner == inner,
            res.data == self.data.range,
            res.inner_key_off == self.data.inner_key_off,
            res.range is None,
    {
        let ts: u64 = match asked {
            Some(ts) => ts,
            None => if CF_MANAGED[cf] && self.managed_ts != 0 {
                self.managed_ts
            } else {
                u64::MAX
            },
        };
        Iterator::new(
            inner,
            self.data.range.clone(),
            self.data.inner_key_off,
            reversed,
            all_versions,
            ts,
        )
    }

    /// First key.
    pub fn get_start_key(&self) -> (res: &[u8])
        ensures
            res@ == self.data@.range.start,
    {
        &self.data.range.outer_start
    }

    /// Key that ends the shard.
    pub fn get_end_key(&self) -> (res: &[u8])
        ensures
            res@ == self.data@.range.end,
    {
        &self.data.range.outer_end
    }

    /// First inner key.
    pub fn get_inner_start(&self) -> (res: InnerKey<'_>)
        ensures
            res@ == inner_of(self.data@.range.start),
    {
        self.data.range.inner_start()
    }

    /// Inner key that ends the shard.
    pub fn get_inner_end(&self) -> (res: InnerKey<'_>)
        ensures
            res@ == inner_end_of(self.data@.range.end),
    {
        self.data.range.inner_end()
    }

    /// Whether the key lies in the shard.
    pub fn key_is_in_range(&self, key: &[u8]) -> (res: bool)
        ensures
            res == self.data@.range.has(key@),
    {
        self.data.range.key_is_in_range(key)
    }

    /// Whether there is a schema file.
    pub fn has_schema_file(&self) -> (res: bool)
        ensures
            res == self.data@.schema_file is Some,
    {
        self.data.schema_file.is_some()
    }

    /// Whether there are tables that are not loaded yet.
    pub fn has_unloaded_tables(&self) -> (res: bool)
        ensures
            res == (self.data@.unloaded_tbls.dom().len() != 0),
    {
        broadcast use vstd::std_specs::hash::group_hash_axioms;

        self.data.unloaded_tbls.len() != 0
    }

    /// Whether a column family can be read without waiting: only committed data can be
    /// remote.
    pub fn is_cf_sync(&self, cf: usize) -> (res: bool)
        ensures
            res == (cf != WRITE_CF || self.is_sync),
    {
        cf != WRITE_CF || self.is_sync
    }

    /// Whether the lower levels of committed data are empty.
    pub fn write_cf_level_n_is_empty(&self) -> (res: bool)
        requires
            self.data@.wf(),
        ensures
            res == (forall|l: int|
                0 <= l < self.data@.cfs[WRITE_CF as int].len() ==> (
                #[trigger] self.data@.cfs[WRITE_CF as int][l]).tables.len() == 0),
    {
        let ghost levels = self.data@.cfs[WRITE_CF as int];
        assert(levels == self.data.cfs@[WRITE_CF as int]@);
        let cf = &self.data.cfs[WRITE_CF];
        let mut l: usize = 0;
        while l < cf.levels.len()
            invariant
                l <= cf.levels@.len(),
                levels == cf@,
                levels == self.data@.cfs[WRITE_CF as int],
                forall|k: int| 0 <= k < l ==> (#[trigger] levels[k]).tables.len() == 0,
            decreases cf.levels@.len() - l,
        {
            assert(levels[l as int] == cf.levels@[l as int]@);
            if cf.levels[l].tables.len() > 0 {
                assert(levels[l as int].tables.len() > 0);
                return false;
            }
            l = l + 1;
        }
        true
    }

    /// All columnar files, each with its level.
    pub fn get_columnar_levels(&self) -> (res: Vec<(ColumnarFile, usize)>)
        ensures
            res@ == leveled(
                self.data@.col_levels.levels,
                self.data@.col_levels.levels.len() as int,
            ),
    {
        let ghost levels = self.data@.col_levels.levels;
        let mut res: Vec<(ColumnarFile, usize)> = Vec::new();
        let mut l: usize = 0;
        while l < self.data.col_levels.levels.len()
            invariant
                l <= self.data.col_levels.levels@.len(),
                levels == self.data@.col_levels.levels,
                res@ =~= leveled(levels, l as int),
            decreases self.data.col_levels.levels@.len() - l,
        {
            let files = &self.data.col_levels.levels[l];
            assert(levels[l as int] == files@);
            let ghost before = res@;
            let mut i: usize = 0;
            while i < files.len()
                invariant
                    i <= files@.len(),
                    res@ =~= before + Seq::new(i as nat, |j: int| (files@[j], l)),
                decreases files@.len() - i,
            {
                res.push((files[i].clone(), l));
                i = i + 1;
            }
            l = l + 1;
        }
        res
    }

    /// What identifies the snapshot.
    pub open spec fn info(self) -> SnapInfo {
        SnapInfo {
            id: self.tag.id_ver.id,
            ver: self.tag.id_ver.ver,
            meta_seq: self.meta_seq,
            encryption_key: self.encryption_key,
        }
    }

    /// What a remote reader of the ranges gets: the key under which the answer is
    /// cached, if that is wanted, and the files as a change set.
    pub fn marshal(
        &self,
        write_sizes: &Vec<Option<u64>>,
        offsets: &HashMap<u64, u32>,
        ranges: &Vec<KeyRange>,
        holding: &Vec<Vec<u64>>,
        write_cf_only: bool,
        with_cache_key: bool,
    ) -> (res: (String, ChangeSet))
        requires
            self.data@.wf(),
            levels_ordered(self.data@.cfs),
            write_sizes@.len() == self.data@.l0_tbls.len(),
            holding@.len() == ranges@.len(),
        ensures
            res.0@ == (if with_cache_key {
                cache_key_of(self.tag.id_ver.id, self.tag.id_ver.ver, self.meta_seq, ranges@)
            } else {
                Seq::empty()
            }),
            res.1.shard_id == self.tag.id_ver.id,
            res.1.shard_ver == self.tag.id_ver.ver,
            res.1.sequence == self.meta_seq,
            (ChangeSet { sequence: 0, snapshot: None, ..res.1 }).blank(),
            res.1.snapshot is Some,
            snapshot_for(
                res.1.snapshot->0,
                self.info(),
                self.data,
                write_sizes@,
                offsets@,
                ranges@,
                holding@,
                write_cf_only,
            ),
    {
        let encryption_key = match &self.encryption_key {
            Some(key) => Some(key.clone()),
            None => None,
        };
        let info = SnapInfo {
            id: self.tag.id_ver.id,
            ver: self.tag.id_ver.ver,
            meta_seq: self.meta_seq,
            encryption_key,
        };
        let cs = to_change_set(
            &info,
            &self.data,
            write_sizes,
            offsets,
            ranges,
            holding,
            write_cf_only,
        );
        let key = cache_key(&cs, ranges, with_cache_key);
        (key, cs)
    }

    /// All files of the snapshot as a change set. `holding` are the columnar files that have
    /// data of the shard.
    pub fn display(
        &self,
        write_sizes: &Vec<Option<u64>>,
        offsets: &HashMap<u64, u32>,
        holding: Vec<u64>,
    ) -> (res: ChangeSet)
        requires
            self.data@.wf(),
            levels_ordered(self.data@.cfs),
            write_sizes@.len() == self.data@.l0_tbls.len(),
        ensures
            res.shard_id == self.tag.id_ver.id,
            res.shard_ver == self.tag.id_ver.ver,
            res.sequence == self.meta_seq,
            (ChangeSet { sequence: 0, snapshot: None, ..res }).blank(),
            res.snapshot is Some,
            snapshot_for(
                res.snapshot->0,
                self.info(),
                self.data,
                write_sizes@,
                offsets@,
                seq![(self.data.range.outer_start, self.data.range.outer_end)],
                seq![holding],
                false,
            ),
    {
        let mut ranges: Vec<KeyRange> = Vec::new();
        ranges.push((self.clone_start_key(), self.clone_end_key()));
        assert(ranges@ =~= seq![(self.data.range.outer_start, self.data.range.outer_end)]);
        let mut all: Vec<Vec<u64>> = Vec::new();
        all.push(holding);
        assert(all@ =~= seq![holding]);
        self.marshal(write_sizes, offsets, &ranges, &all, false, false).1
    }
}

} // verus!
