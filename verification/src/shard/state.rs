//! What is known of a shard.
use vstd::prelude::*;

use crate::file_meta::SnapVersion;
use crate::lists::{contains_i64, copy_i64s, sorted_u64};
use crate::pb;
use crate::pb::{StorageClassSpec, TableIdSpan};
use crate::shard::data::{
    col_ids, ids_of_blobs, ids_of_l0s, local_ids, mem_chunks, tables_of_cfs, txn_chunks, vec_ids,
    Data, Mem, ShardData, VectorIndexDef,
};
use crate::shard::levels::Level;
use crate::shard::merge::{is_merged, is_prepared_merge, is_rolled_back, MergeSource};
use crate::shard::ops::{GcStats, Shard};
use crate::shard::priority::{
    most_needed, need_build_vector_index, priority_of, rows_fit, vectors_grown, Asked,
    PriorityOptions, Scores, TableRows, VectorState,
};
use crate::shard::split::is_part;
use crate::shard::stats::LevelStatsLite;
use crate::vectors::{is_vector_of, vector_of, vectors_of};
use crate::NUM_CFS;

verus! {

/// A shard and its version.
#[derive(Clone, Copy, Debug, PartialEq, Eq, Structural)]
pub struct IdVer {
    /// The shard.
    pub id: u64,
    /// Version of its range.
    pub ver: u64,
}

impl IdVer {
    /// The shard at a version.
    pub fn new(id: u64, ver: u64) -> (res: Self)
        ensures
            res == (IdVer { id, ver }),
    {
        IdVer { id, ver }
    }
}

/// A shard of a store.
#[derive(Clone, Copy, Debug, PartialEq, Eq, Structural)]
pub struct ShardTag {
    /// The store.
    pub engine_id: u64,
    /// The shard and its version.
    pub id_ver: IdVer,
}

impl ShardTag {
    /// The shard of a store.
    pub fn new(engine_id: u64, id_ver: IdVer) -> (res: Self)
        ensures
            res == (ShardTag { engine_id, id_ver }),
    {
        ShardTag { engine_id, id_ver }
    }
}

/// Sizes and timestamps of a shard.
#[derive(Clone, Copy, Debug, PartialEq, Eq, Structural)]
pub struct ShardStates {
    /// Size of the files and of the blobs that they refer to.
    pub estimated_size: u64,
    /// Number of entries.
    pub estimated_entries: u64,
    /// Highest timestamp of the files.
    pub sst_max_ts: u64,
    /// Highest timestamp.
    pub max_ts: u64,
    /// Size of keys and values.
    pub estimated_kv_size: u64,
    /// That of tables that are kept remote.
    pub estimated_ia_kv_size: u64,
    /// Size of columnar files.
    pub estimated_columnar_size: u64,
    /// Size of their keys and values.
    pub estimated_columnar_kv_size: u64,
    /// What the statistics say about old versions.
    pub gc_stats: GcStats,
}

/// Sizes and timestamps of a shard, as the statistics of its levels and the highest
/// timestamp of its memory tables say.
pub open spec fn states_of(stats: LevelStatsLite, mem_max_ts: u64) -> ShardStates {
    ShardStates {
        estimated_size: (stats.data_size + stats.blob_size) as u64,
        estimated_entries: stats.entries,
        sst_max_ts: stats.max_ts,
        max_ts: if stats.max_ts >= mem_max_ts {
            stats.max_ts
        } else {
            mem_max_ts
        },
        estimated_kv_size: stats.kv_size,
        estimated_ia_kv_size: stats.ia_kv_size,
        estimated_columnar_size: stats.columnar_size,
        estimated_columnar_kv_size: stats.columnar_kv_size,
        gc_stats: GcStats {
            lv2plus_max_ts: stats.lv2plus_max_ts,
            lv2plus_tombs: stats.lv2plus_tombs,
            lv2plus_entries_write_cf: stats.lv2plus_entries_write_cf,
            lv1plus_min_lock_file_max_ts: stats.lv1plus_min_max_lock_ts,
            lv1_min_max_extra_ts: stats.lv1_min_max_extra_ts,
        },
    }
}

/// Sizes and timestamps of a shard, as the statistics of its levels and the highest
/// timestamp of its memory tables say.
pub fn refreshed_states(stats: &LevelStatsLite, mem_max_ts: u64) -> (res: ShardStates)
    requires
        stats.data_size + stats.blob_size <= u64::MAX,
    ensures
        res == states_of(*stats, mem_max_ts),
{
    ShardStates {
        estimated_size: stats.data_size + stats.blob_size,
        estimated_entries: stats.entries,
        sst_max_ts: stats.max_ts,
        max_ts: if stats.max_ts >= mem_max_ts {
            stats.max_ts
        } else {
            mem_max_ts
        },
        estimated_kv_size: stats.kv_size,
        estimated_ia_kv_size: stats.ia_kv_size,
        estimated_columnar_size: stats.columnar_size,
        estimated_columnar_kv_size: stats.columnar_kv_size,
        gc_stats: GcStats {
            lv2plus_max_ts: stats.lv2plus_max_ts,
            lv2plus_tombs: stats.lv2plus_tombs,
            lv2plus_entries_write_cf: stats.lv2plus_entries_write_cf,
            lv1plus_min_lock_file_max_ts: stats.lv1plus_min_max_lock_ts,
            lv1_min_max_extra_ts: stats.lv1_min_max_extra_ts,
        },
    }
}

/// A random number below a limit, from the thread's generator of the `rand` crate by
/// `Rng::gen_range`. It lies in the range; which number it is rests on chance.
#[verifier::external_body]
fn random_below(limit: u64) -> (res: u64)
    requires
        limit > 0,
    ensures
        res < limit,
{
    rand::Rng::gen_range(&mut rand::thread_rng(), 0..limit)
}

/// When deleted prefixes are cleared: at a random time after now, but before the longest
/// delay has gone by. Times are in nanoseconds.
pub fn gen_rand_schedule_del_range_time(now: u64, max_delay: u64) -> (res: u64)
    requires
        max_delay > 0,
        now + max_delay <= u64::MAX,
    ensures
        now <= res < now + max_delay,
{
    now + random_below(max_delay)
}

/// Sum of the numbers from `i` on.
pub open spec fn sum_from(s: Seq<u64>, i: int) -> int
    decreases s.len() - i,
{
    if i >= s.len() {
        0
    } else {
        s[i] + sum_from(s, i + 1)
    }
}

/// Sum of the sizes of keys and values of the tables from `i` on.
pub open spec fn kv_from(level: Level, i: int) -> int
    decreases level.tables.len() - i,
{
    if i >= level.tables.len() {
        0
    } else {
        level.tables[i].kv_size + kv_from(level, i + 1)
    }
}

/// That of the levels from `l` on.
pub open spec fn levels_kv_from(levels: Seq<Level>, l: int) -> int
    decreases levels.len() - l,
{
    if l >= levels.len() {
        0
    } else {
        kv_from(levels[l], 0) + levels_kv_from(levels, l + 1)
    }
}

proof fn lemma_sum_nonneg(s: Seq<u64>, i: int)
    ensures
        0 <= sum_from(s, i),
    decreases s.len() - i,
{
    if i < s.len() {
        lemma_sum_nonneg(s, i + 1);
    }
}

proof fn lemma_kv_nonneg(level: Level, i: int)
    ensures
        0 <= kv_from(level, i),
    decreases level.tables.len() - i,
{
    if i < level.tables.len() {
        lemma_kv_nonneg(level, i + 1);
    }
}

proof fn lemma_levels_nonneg(levels: Seq<Level>, l: int)
    ensures
        0 <= levels_kv_from(levels, l),
    decreases levels.len() - l,
{
    if l < levels.len() {
        lemma_kv_nonneg(levels[l], 0);
        lemma_levels_nonneg(levels, l + 1);
    }
}

/// The files are the tables, the chunks of transaction files, the columnar files, the
/// files of vector indexes and the schema file, one kind behind the other.
pub open spec fn is_all_files(
    d: Data,
    ssts: Seq<u64>,
    chunks: Seq<u64>,
    files: Seq<u64>,
) -> bool {
    &&& sorted_u64(ssts)
    &&& ssts.to_multiset() == (ids_of_l0s(d.l0_tbls) + ids_of_blobs(d.blob_tbls) + local_ids(
        tables_of_cfs(d.cfs),
        false,
    )).to_multiset()
    &&& sorted_u64(chunks)
    &&& chunks.to_multiset() == (txn_chunks(d.lock_txn_files) + mem_chunks(
        d.mem_tbls,
    )).to_multiset()
    &&& files == ssts + chunks + col_ids(d.col_levels.levels) + vec_ids(d.vector_indexes) + (
    match d.schema_file {
        Some(schema) => seq![schema.file_id],
        None => Seq::empty(),
    })
}

/// The highest version of the memory tables.
pub open spec fn mem_max_version(mems: Seq<Mem>) -> u64
    decreases mems.len(),
{
    if mems.len() == 0 {
        0
    } else {
        let rest = mem_max_version(mems.drop_last());
        if mems.last().version.version > rest {
            mems.last().version.version
        } else {
            rest
        }
    }
}

/// The first vector index of the table that the schema defines under the id.
pub open spec fn is_def_of(defs: Seq<VectorIndexDef>, table_id: i64, index_id: i64, i: int) -> bool {
    &&& 0 <= i < defs.len()
    &&& defs[i].table_id == table_id
    &&& defs[i].index_id == index_id
    &&& forall|j: int|
        0 <= j < i ==> !((#[trigger] defs[j]).table_id == table_id && defs[j].index_id == index_id)
}

impl ShardData {
    /// Size of a column family: that of the memory tables and of the keys and values of
    /// the tables. `mem_sizes` are the sizes of the memory tables in it.
    pub fn get_cf_total_size(&self, cf: usize, mem_sizes: &Vec<u64>) -> (res: u64)
        requires
            self@.wf(),
            cf < NUM_CFS,
            sum_from(mem_sizes@, 0) + levels_kv_from(self@.cfs[cf as int], 0) <= u64::MAX,
        ensures
            res == sum_from(mem_sizes@, 0) + levels_kv_from(self@.cfs[cf as int], 0),
    {
        let ghost levels = self@.cfs[cf as int];
        let ghost all = sum_from(mem_sizes@, 0) + levels_kv_from(levels, 0);
        let mut total: u64 = 0;
        let mut i: usize = 0;
        proof {
            lemma_levels_nonneg(levels, 0);
        }
        while i < mem_sizes.len()
            invariant
                i <= mem_sizes@.len(),
                total + sum_from(mem_sizes@, i as int) == sum_from(mem_sizes@, 0),
                sum_from(mem_sizes@, 0) <= u64::MAX,
            decreases mem_sizes@.len() - i,
        {
            proof {
                lemma_sum_nonneg(mem_sizes@, i + 1);
            }
            total = total + mem_sizes[i];
            i = i + 1;
        }
        assert(levels == self.cfs@[cf as int]@);
        let scf = &self.cfs[cf];
        let mut l: usize = 0;
        while l < scf.levels.len()
            invariant
                l <= scf.levels@.len(),
                levels == scf@,
                all <= u64::MAX,
                total + levels_kv_from(levels, l as int) == all,
            decreases scf.levels@.len() - l,
        {
            let level = &scf.levels[l];
            assert(levels[l as int] == level@);
            let ghost before = total as int;
            let mut k: usize = 0;
            while k < level.tables.len()
                invariant
                    k <= level.tables@.len(),
                    l < levels.len(),
                    level@ == levels[l as int],
                    all <= u64::MAX,
                    before + levels_kv_from(levels, l as int) == all,
                    total + kv_from(level@, k as int) == before + kv_from(level@, 0),
                decreases level.tables@.len() - k,
            {
                proof {
                    lemma_kv_nonneg(level@, k + 1);
                    lemma_levels_nonneg(levels, l + 1);
                }
                total = total + level.tables[k].kv_size;
                k = k + 1;
            }
            l = l + 1;
        }
        total
    }

    /// Ids of all files: tables, chunks of transaction files, columnar files, files of
    /// vector indexes and the schema file.
    pub fn get_all_files(&self) -> (res: Vec<u64>)
        ensures
            exists|ssts: Seq<u64>, chunks: Seq<u64>|
                #[trigger] is_all_files(self@, ssts, chunks, res@),
    {
        let ssts = self.get_all_sst_files();
        let chunks = self.get_txn_chunks();
        let cols = self.get_all_col_files();
        let vecs = self.get_all_vec_idx_files();
        let mut files: Vec<u64> = Vec::new();
        files.extend_from_slice(ssts.as_slice());
        files.extend_from_slice(chunks.as_slice());
        files.extend_from_slice(cols.as_slice());
        files.extend_from_slice(vecs.as_slice());
        let ghost before = files@;
        assert(before =~= ssts@ + chunks@ + cols@ + vecs@);
        if let Some(id) = self.schema_file_id() {
            files.push(id);
            assert(files@ =~= before + seq![id]);
        } else {
            assert(files@ =~= before + Seq::empty());
        }
        assert(is_all_files(self@, ssts@, chunks@, files@));
        files
    }

    /// The highest version of the memory tables.
    pub fn get_mem_table_max_version(&self) -> (res: SnapVersion)
        ensures
            res.version == mem_max_version(self@.mem_tbls),
    {
        let ghost m = self@.mem_tbls;
        let mut res: u64 = 0;
        let mut i: usize = 0;
        assert(m.take(0) =~= Seq::empty());
        while i < self.mem_tbls.len()
            invariant
                i <= self.mem_tbls@.len(),
                m == self@.mem_tbls,
                res == mem_max_version(m.take(i as int)),
            decreases self.mem_tbls@.len() - i,
        {
            proof {
                assert(m.take(i + 1).drop_last() =~= m.take(i as int));
                assert(m[i as int] == self.mem_tbls@[i as int]@);
            }
            let v = self.mem_tbls[i].version.version;
            if v > res {
                res = v;
            }
            i = i + 1;
        }
        assert(m.take(m.len() as int) =~= m);
        SnapVersion { version: res }
    }

    /// Size of the memory table that is written to, and that of its properties that are
    /// not in files yet.
    pub fn get_writable_mem_table_state(&self) -> (res: (u64, usize))
        requires
            self@.wf(),
        ensures
            res.0 == self@.mem_tbls[0].size,
            res.1 == self@.mem_tbls[0].unpersisted_props_size,
    {
        assert(self@.mem_tbls[0] == self.mem_tbls@[0]@);
        (self.mem_tbls[0].size, self.mem_tbls[0].unpersisted_props_size)
    }

    /// Where the vector index of a column is, if there is one.
    pub fn get_vector_index(&self, table_id: i64, index_id: i64, col_id: i64) -> (res: Option<usize>)
        ensures
            match res {
                Some(i) => {
                    &&& i < self@.vector_indexes.len()
                    &&& self@.vector_indexes[i as int].is_of(table_id, index_id, col_id)
                    &&& forall|j: int|
                        0 <= j < i ==> !(#[trigger] self@.vector_indexes[j]).is_of(
                            table_id,
                            index_id,
                            col_id,
                        )
                },
                None => forall|j: int|
                    0 <= j < self@.vector_indexes.len() ==> !(
                    #[trigger] self@.vector_indexes[j]).is_of(table_id, index_id, col_id),
            },
    {
        let ghost all = self@.vector_indexes;
        let mut i: usize = 0;
        while i < self.vector_indexes.len()
            invariant
                i <= self.vector_indexes@.len(),
                all == vectors_of(self.vector_indexes@),
                forall|j: int|
                    0 <= j < i ==> !(#[trigger] all[j]).is_of(table_id, index_id, col_id),
            decreases self.vector_indexes@.len() - i,
        {
            assert(all[i as int] == vector_of(self.vector_indexes@[i as int]));
            if is_vector_of(&self.vector_indexes[i], table_id, index_id, col_id) {
                return Some(i);
            }
            i = i + 1;
        }
        None
    }

    /// There is a vector index of the column.
    pub open spec fn has_index(self, table_id: i64, index_id: i64, col_id: i64) -> bool {
        exists|j: int|
            0 <= j < self@.vector_indexes.len() && (#[trigger] self@.vector_indexes[j]).is_of(
                table_id,
                index_id,
                col_id,
            )
    }

    /// Whether a vector index that the schema defines is there. One that has not enough
    /// vectors to be built counts as being there, once the table is kept as columns.
    pub fn vector_index_ready(
        &self,
        table_id: i64,
        index_id: i64,
        rows: &Vec<TableRows>,
        delta_size: usize,
    ) -> (res: bool)
        requires
            self@.schema_file matches Some(s) ==> forall|i: int|
                0 <= i < s.vector_indexes.len() ==> rows_fit(rows@, #[trigger] s.vector_indexes[i]),
        ensures
            match self@.schema_file {
                Some(schema) => if schema.tables.contains(table_id) && exists|i: int|
                    is_def_of(schema.vector_indexes, table_id, index_id, i) {
                    forall|i: int| #[trigger]
                        is_def_of(schema.vector_indexes, table_id, index_id, i) ==> {
                            let def = schema.vector_indexes[i];
                            res == (self.has_index(table_id, index_id, def.col_id) || (
                            self@.columnar_table_ids.contains(table_id) && !vectors_grown(
                                rows@,
                                def,
                                SnapVersion { version: 0 },
                                delta_size,
                            )))
                        }
                } else {
                    !res
                },
                None => !res,
            },
    {
        let schema = match &self.schema_file {
            Some(schema) => schema,
            None => {
                return false;
            },
        };
        if !contains_i64(&schema.tables, table_id) {
            return false;
        }
        let mut i: usize = 0;
        while i < schema.vector_indexes.len()
            invariant
                i <= schema.vector_indexes@.len(),
                forall|j: int|
                    0 <= j < i ==> !((#[trigger] schema.vector_indexes@[j]).table_id == table_id
                        && schema.vector_indexes@[j].index_id == index_id),
                self.schema_file == Some(*schema),
                schema.tables@.contains(table_id),
                self@.schema_file matches Some(s) ==> forall|i: int|
                    0 <= i < s.vector_indexes.len() ==> rows_fit(
                        rows@,
                        #[trigger] s.vector_indexes[i],
                    ),
            decreases schema.vector_indexes@.len() - i,
        {
            let def = schema.vector_indexes[i];
            if def.table_id == table_id && def.index_id == index_id {
                assert(is_def_of(schema.vector_indexes@, table_id, index_id, i as int));
                assert(rows_fit(rows@, self@.schema_file->0.vector_indexes[i as int]));
                if let Some(k) = self.get_vector_index(table_id, index_id, def.col_id) {
                    assert(self@.vector_indexes[k as int].is_of(table_id, index_id, def.col_id));
                    return true;
                }
                return contains_i64(&self.columnar_table_ids, table_id) && !need_build_vector_index(
                    rows,
                    &def,
                    SnapVersion::zero(),
                    delta_size,
                );
            }
            i = i + 1;
        }
        false
    }
}

/// Why a shard gets another version.
#[derive(Clone, Copy, Debug, PartialEq, Eq, Structural)]
pub enum VersionChange {
    /// It is split.
    Split,
    /// It is to be merged into another.
    PrepareMerge,
    /// That is given up.
    RollbackMerge,
    /// Another is merged into it.
    CommitMerge,
}

impl VersionChange {
    /// The shard that is made needs a first flush.
    pub open spec fn needs_first_flush(self) -> bool {
        !(self is RollbackMerge)
    }

    /// Whether the memory table is switched even where it is empty.
    pub fn forces_switch(self) -> (res: bool)
        ensures
            res == self.needs_first_flush(),
    {
        self != VersionChange::RollbackMerge
    }
}

/// How a memory table is switched.
#[derive(Clone, Copy, Debug, PartialEq, Eq, Structural)]
pub struct MemSwitch {
    /// Version of what it holds.
    pub version: SnapVersion,
    /// It is switched even where it is empty, and marked.
    pub force_switch: bool,
    /// Sequence of the last write.
    pub sequence: u64,
}

/// The memory table is switched by force exactly where the shards that are made need a
/// first flush: the parts of a split, a shard that is to be merged and one that another was
/// merged into do; a shard whose merge was given up does not.
pub proof fn law_switch_is_forced_for_a_first_flush(
    shard: Shard,
    split: pb::Split,
    source: MergeSource,
    sequence: u64,
    initial_seq: u64,
    span: TableIdSpan,
    ids: Seq<i64>,
    schedule_at: u64,
    class: StorageClassSpec,
    i: int,
    made: Shard,
)
    ensures
        is_part(shard, split, sequence, initial_seq, span, schedule_at, class, i, made)
            ==> VersionChange::Split.needs_first_flush() == !made.initial_flushed,
        is_prepared_merge(shard, sequence, schedule_at, made)
            ==> VersionChange::PrepareMerge.needs_first_flush() == !made.initial_flushed,
        is_rolled_back(shard, sequence, schedule_at, made)
            ==> VersionChange::RollbackMerge.needs_first_flush() == !made.initial_flushed,
        is_merged(shard, source, sequence, ids, schedule_at, class, made)
            ==> VersionChange::CommitMerge.needs_first_flush() == !made.initial_flushed,
{
}

impl Shard {
    /// The shard and its version.
    pub fn id_ver(&self) -> (res: IdVer)
        ensures
            res == (IdVer { id: self.id, ver: self.ver }),
    {
        IdVer::new(self.id, self.ver)
    }

    /// The shard of the store.
    pub fn tag(&self) -> (res: ShardTag)
        ensures
            res == (ShardTag {
                engine_id: self.engine_id,
                id_ver: IdVer { id: self.id, ver: self.ver },
            }),
    {
        ShardTag::new(self.engine_id, self.id_ver())
    }

    /// Whether the shard flushes and compacts.
    pub fn is_active(&self) -> (res: bool)
        ensures
            res == self.active,
    {
        self.active
    }

    /// Makes the shard flush and compact, or not.
    pub fn set_active(&mut self, active: bool)
        ensures
            *final(self) == (Shard { active, ..*old(self) }),
    {
        self.active = active;
    }

    /// Replaces the data. The new data counts one replacement more than the old.
    pub fn set_data(&mut self, data: ShardData)
        requires
            old(self).data@.update_counter + 1 == data@.update_counter,
        ensures
            *final(self) == (Shard { data, ..*old(self) }),
    {
        self.data = data;
    }

    /// Makes the shard ready for another version: the last write has the sequence. The
    /// result says how the memory table that is written to is to be switched, so that the
    /// first one is empty.
    pub fn prepare_update_shard_version(&mut self, sequence: u64, change: VersionChange) -> (res:
        MemSwitch)
        requires
            old(self).base_version + sequence <= u64::MAX,
        ensures
            *final(self) == (Shard { write_sequence: sequence, ..*old(self) }),
            res == (MemSwitch {
                version: SnapVersion { version: (old(self).base_version + sequence) as u64 },
                force_switch: change.needs_first_flush(),
                sequence,
            }),
    {
        self.write_sequence = sequence;
        MemSwitch {
            version: SnapVersion::new(self.base_version, self.write_sequence),
            force_switch: change.forces_switch(),
            sequence,
        }
    }

    /// Finds out which compaction the shard needs most.
    pub fn refresh_compaction_priority(
        &mut self,
        now: u64,
        opts: &PriorityOptions,
        tables: &Vec<i64>,
        states: &Vec<VectorState>,
        rows: &Vec<TableRows>,
        scores: &Scores,
    )
        requires
            old(self).data@.wf(),
            old(self).pending_ops.del_prefixes@.matched(),
            states@.len() == old(self).data@.vector_indexes.len(),
            scores.col_l1 ==> old(self).data@.col_levels.levels[1].len() > 0,
            old(self).data@.schema_file matches Some(s) ==> forall|i: int|
                0 <= i < s.vector_indexes.len() ==> rows_fit(rows@, #[trigger] s.vector_indexes[i]),
        ensures
            *final(self) == (Shard {
                compaction_priority: final(self).compaction_priority,
                ..*old(self)
            }),
            priority_of(final(self).compaction_priority) == most_needed(
                old(self).data@,
                Asked {
                    deletion: old(self).pending_ops.del_prefixes@,
                    truncate_ts: old(self).pending_ops.truncate_ts,
                    trim_over_bound: old(self).pending_ops.trim_over_bound,
                    major: old(self).pending_ops.manual_major_compaction,
                    now,
                },
                *opts,
                old(self).outdated_schema_ver,
                tables@,
                states@,
                rows@,
                *scores,
            ),
    {
        self.compaction_priority =
        self.data.get_compaction_priority(
            &self.pending_ops.del_prefixes,
            self.pending_ops.truncate_ts,
            self.pending_ops.trim_over_bound,
            self.pending_ops.manual_major_compaction,
            now,
            opts,
            self.outdated_schema_ver,
            tables,
            states,
            rows,
            scores,
        );
    }

    /// Version of the data in files.
    pub fn get_persisted_snap_version(&self) -> (res: SnapVersion)
        ensures
            res == self.data@.persisted_version,
    {
        self.data.persisted_version
    }

    /// Version of the columnar files of level 2.
    pub fn get_columnar_l2_snap_version(&self) -> (res: SnapVersion)
        ensures
            res == self.data@.col_levels.l2_snap_version,
    {
        self.data.col_levels.l2_snap_version
    }

    /// Tables that are kept as columns.
    pub fn get_columnar_table_ids(&self) -> (res: Vec<i64>)
        ensures
            res@ == self.data@.columnar_table_ids,
    {
        copy_i64s(&self.data.columnar_table_ids)
    }

    /// Whether there is a vector index.
    pub fn has_vector_index(&self) -> (res: bool)
        ensures
            res == (self.data@.vector_indexes.len() > 0),
    {
        self.data.vector_indexes.len() > 0
    }

    /// Whether all data is in files.
    pub fn data_all_persisted(&self) -> (res: bool)
        ensures
            res == self.data@.persisted(),
    {
        self.data.all_persisted()
    }

    /// Whether the files are encrypted.
    pub fn is_encrypted(&self) -> (res: bool)
        ensures
            res == self.encryption_key is Some,
    {
        self.encryption_key.is_some()
    }
}

} // verus!
