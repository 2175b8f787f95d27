//! Which compaction a shard needs most.
use vstd::prelude::*;

use crate::bound::{Bound, BoundedDataSet};
use crate::del_prefixes::{delete_bound, Deletion, DeletePrefixes};
use crate::file_meta::SnapVersion;
use crate::lists::{contains_i64, copy_i64s, retain_vec, sort_dedup, sorted_ids};
use crate::shard::data::{
    col_ids, Data, L0Table, Schema, SchemaFile, ShardData, VectorIndexDef,
    MAX_UNCONVERTED_L0_FILE_COUNTS,
};
use crate::shard::ops::MajorCompactionType;
use crate::vectors::{vector_of, Vector};

verus! {

/// How many columnar files of level 0 are put up with.
pub const MAX_COL_L0_FILE_COUNTS: usize = 32;

/// How many columnar files of level 1 are put up with.
pub const MAX_COL_L1_FILE_COUNTS: usize = 64;

/// A compaction that a shard needs.
pub enum CompactionPriority {
    /// Tables of level 0.
    L0,
    /// Tables of a lower level.
    L1Plus {
        /// Column family.
        cf: usize,
        /// Level.
        level: usize,
    },
    /// Tables of all levels.
    Major {
        /// It was asked for.
        is_manual: bool,
    },
    /// Keys of deleted prefixes.
    DestroyRange,
    /// The newest versions.
    TruncateTs,
    /// Keys outside the shard.
    TrimOverBound,
    /// Tables of level 0 that have no columnar file yet.
    L0ToColumnar,
    /// Columnar files of all levels.
    ColumnarMajor {
        /// Tables that are to be kept as columns.
        table_ids_to_add: Vec<i64>,
        /// Tables that are not to be kept as columns any more.
        table_ids_to_clear: Vec<i64>,
        /// It was asked for.
        is_manual: bool,
        /// Version of the schema.
        schema_version: i64,
    },
    /// Columnar files of level 0.
    ColumnarL0,
    /// Columnar files of level 1.
    ColumnarL1,
    /// All columnar files are dropped.
    ColumnarClear,
    /// A vector index.
    UpdateVectorIndex {
        /// Table.
        table_id: i64,
        /// Index.
        index_id: i64,
        /// Column.
        col_id: i64,
        /// It is built anew.
        rebuild: bool,
    },
    /// Old tables of locks.
    GcLockFile,
    /// Old tables of the extra column family.
    GcExtraFile,
}

/// A compaction that a shard needs.
#[verifier::ext_equal]
pub enum Priority {
    /// Tables of level 0.
    L0,
    /// Tables of a lower level.
    L1Plus {
        /// Column family.
        cf: usize,
        /// Level.
        level: usize,
    },
    /// Tables of all levels.
    Major {
        /// It was asked for.
        is_manual: bool,
    },
    /// Keys of deleted prefixes.
    DestroyRange,
    /// The newest versions.
    TruncateTs,
    /// Keys outside the shard.
    TrimOverBound,
    /// Tables of level 0 that have no columnar file yet.
    L0ToColumnar,
    /// Columnar files of all levels.
    ColumnarMajor {
        /// Tables that are to be kept as columns.
        add: Seq<i64>,
        /// Tables that are not to be kept as columns any more.
        clear: Seq<i64>,
        /// It was asked for.
        is_manual: bool,
        /// Version of the schema.
        schema_version: i64,
    },
    /// Columnar files of level 0.
    ColumnarL0,
    /// Columnar files of level 1.
    ColumnarL1,
    /// All columnar files are dropped.
    ColumnarClear,
    /// A vector index.
    UpdateVectorIndex {
        /// Table.
        table_id: i64,
        /// Index.
        index_id: i64,
        /// Column.
        col_id: i64,
        /// It is built anew.
        rebuild: bool,
    },
    /// Old tables of locks.
    GcLockFile,
    /// Old tables of the extra column family.
    GcExtraFile,
}

impl View for CompactionPriority {
    type V = Priority;

    open spec fn view(&self) -> Priority {
        match self {
            CompactionPriority::L0 => Priority::L0,
            CompactionPriority::L1Plus { cf, level } => Priority::L1Plus { cf: *cf, level: *level },
            CompactionPriority::Major { is_manual } => Priority::Major { is_manual: *is_manual },
            CompactionPriority::DestroyRange => Priority::DestroyRange,
            CompactionPriority::TruncateTs => Priority::TruncateTs,
            CompactionPriority::TrimOverBound => Priority::TrimOverBound,
            CompactionPriority::L0ToColumnar => Priority::L0ToColumnar,
            CompactionPriority::ColumnarMajor {
                table_ids_to_add,
                table_ids_to_clear,
                is_manual,
                schema_version,
            } => Priority::ColumnarMajor {
                add: table_ids_to_add@,
                clear: table_ids_to_clear@,
                is_manual: *is_manual,
                schema_version: *schema_version,
            },
            CompactionPriority::ColumnarL0 => Priority::ColumnarL0,
            CompactionPriority::ColumnarL1 => Priority::ColumnarL1,
            CompactionPriority::ColumnarClear => Priority::ColumnarClear,
            CompactionPriority::UpdateVectorIndex { table_id, index_id, col_id, rebuild } =>
            Priority::UpdateVectorIndex {
                table_id: *table_id,
                index_id: *index_id,
                col_id: *col_id,
                rebuild: *rebuild,
            },
            CompactionPriority::GcLockFile => Priority::GcLockFile,
            CompactionPriority::GcExtraFile => Priority::GcExtraFile,
        }
    }
}

/// What an optional priority says.
pub open spec fn priority_of(p: Option<CompactionPriority>) -> Option<Priority> {
    match p {
        Some(p) => Some(p@),
        None => None,
    }
}

/// What is known of the files of a vector index.
#[derive(Clone, Copy, Debug, PartialEq, Eq, Structural)]
pub struct VectorState {
    /// The index has to be built anew.
    pub need_rebuild: bool,
    /// A file is of an old format.
    pub legacy: bool,
}

/// How many rows of a table a columnar file has.
#[derive(Clone, Copy, Debug, PartialEq, Eq, Structural)]
pub struct TableRows {
    /// Table.
    pub table_id: i64,
    /// Level of the file.
    pub level: usize,
    /// Version of the file, zero where it is not known.
    pub snap_version: SnapVersion,
    /// Number of rows.
    pub rows: usize,
}

/// When vector indexes are built.
#[derive(Clone, Copy, Debug, PartialEq, Eq, Structural)]
pub struct VectorIndexBuildOptions {
    /// With so many files, an index is built anew.
    pub rebuild_file_count: usize,
    /// Size of new vectors from which an index is updated.
    pub delta_size: usize,
}

/// What scores say that are computed elsewhere.
#[derive(Clone, Copy, Debug, PartialEq, Eq)]
pub struct Scores {
    /// Too few blobs of the blob tables are in use.
    pub blob_gc: bool,
    /// The column family and level with the highest score, where that is above
    /// one; level zero stands for the tables of level 0.
    pub highest: Option<(usize, usize)>,
    /// Columnar level 0 has the higher score, and it is above one.
    pub col_l0: bool,
    /// Columnar level 1 has the higher score, and it is above one.
    pub col_l1: bool,
}

/// What the shard is set up to do.
#[derive(Clone, Copy, Debug, PartialEq, Eq, Structural)]
pub struct PriorityOptions {
    /// Columnar files are neither loaded nor made.
    pub ignore_columnar_table_load: bool,
    /// Columnar files are made.
    pub build_columnar: bool,
    /// When vector indexes are built.
    pub vector: VectorIndexBuildOptions,
}

/// Keys of deleted prefixes can be removed: the time has come, and none of them is
/// in memory.
pub open spec fn can_destroy_range(d: Deletion, now: u64, data: Data) -> bool {
    &&& d.prefixes.len() > 0
    &&& now > d.schedule_at
    &&& forall|i: int, j: int|
        0 <= i < data.mem_tbls.len() && 0 <= j < d.prefixes.len()
            ==> !(#[trigger] data.mem_tbls[i]).in_bound(
            delete_bound(d.keyspace_prefix_len, #[trigger] d.prefixes[j], d.nexts[j]),
        )
}

/// The newest versions can be removed: none is in memory.
pub open spec fn can_truncate_ts(truncate_ts: Option<u64>, data: Data) -> bool {
    truncate_ts matches Some(ts) && forall|i: int|
        0 <= i < data.mem_tbls.len() ==> (#[trigger] data.mem_tbls[i]).max_ts <= ts
}

/// A compaction that was asked for can be made.
pub open spec fn can_major_compact(comp: MajorCompactionType, data: Data) -> bool {
    match comp {
        MajorCompactionType::Disable => false,
        MajorCompactionType::Enable => data.col_levels.unconverted_l0s.len() == 0,
        MajorCompactionType::EnableColumnar => {
            &&& data.schema_file matches Some(s) && s.columnar_tables.len() > 0
            &&& data.columnar_table_ids.len() > 0
            &&& col_ids(data.col_levels.levels).len() > 0
        },
    }
}

/// The schema has the table but not this index of it.
pub open spec fn index_dropped(s: Schema, v: Vector) -> bool {
    s.tables.contains(v.table_id) && !has_def(s.vector_indexes, v)
}

/// A definition is that of the index.
pub open spec fn has_def(defs: Seq<VectorIndexDef>, v: Vector) -> bool {
    exists|i: int|
        0 <= i < defs.len() && (#[trigger] defs[i]).table_id == v.table_id && defs[i].index_id
            == v.index_id && defs[i].col_id == v.col_id
}

/// The first index that the schema dropped.
pub open spec fn first_dropped(s: Schema, v: Seq<Vector>) -> Option<Vector>
    decreases v.len(),
{
    if v.len() == 0 {
        None
    } else if index_dropped(s, v[0]) {
        Some(v[0])
    } else {
        first_dropped(s, v.drop_first())
    }
}

/// What is needed before any compaction of tables.
pub open spec fn high_priority(
    data: Data,
    ignore_columnar: bool,
    outdated_schema_ver: i64,
) -> Option<Priority> {
    if ignore_columnar {
        None
    } else {
        match data.schema_file {
            None => if data.columnar_table_ids.len() > 0 {
                Some(Priority::ColumnarClear)
            } else {
                None
            },
            Some(s) => match first_dropped(s, data.vector_indexes) {
                Some(v) => Some(
                    Priority::UpdateVectorIndex {
                        table_id: v.table_id,
                        index_id: v.index_id,
                        col_id: v.col_id,
                        rebuild: true,
                    },
                ),
                None => if data.col_levels.unconverted_l0s.len() == 0 {
                    None
                } else if outdated_schema_ver == s.version {
                    if data.col_levels.unconverted_l0s.len() > MAX_UNCONVERTED_L0_FILE_COUNTS {
                        Some(Priority::ColumnarClear)
                    } else {
                        None
                    }
                } else {
                    Some(Priority::L0ToColumnar)
                },
            },
        }
    }
}

/// The tables of the schema that are not in the shard, and those of the shard that
/// are not in the schema.
pub open spec fn table_difference(a: Seq<i64>, b: Seq<i64>) -> Seq<i64> {
    sort_dedup(a.filter(|id: i64| !b.contains(id)))
}

/// The first vector index that has to be updated before columnar files are merged
/// into level 2.
pub open spec fn vector_override(
    v: Seq<Vector>,
    states: Seq<VectorState>,
    version: SnapVersion,
) -> Option<Priority>
    decreases v.len(),
{
    if v.len() == 0 {
        None
    } else if states[0].need_rebuild || v[0].snap_version < version.version {
        Some(
            Priority::UpdateVectorIndex {
                table_id: v[0].table_id,
                index_id: v[0].index_id,
                col_id: v[0].col_id,
                rebuild: states[0].need_rebuild,
            },
        )
    } else {
        vector_override(v.drop_first(), states.drop_first(), version)
    }
}

/// What columnar files need. `tables` are the tables of the schema that overlap
/// the shard.
pub open spec fn columnar_priority(
    data: Data,
    opts: PriorityOptions,
    tables: Seq<i64>,
    states: Seq<VectorState>,
    scores: Scores,
) -> Option<Priority> {
    if opts.ignore_columnar_table_load || data.schema_file is None {
        None
    } else {
        let add = table_difference(tables, data.columnar_table_ids);
        let clear = table_difference(data.columnar_table_ids, tables);
        if opts.build_columnar && (add.len() > 0 || clear.len() > 0) {
            Some(
                Priority::ColumnarMajor {
                    add,
                    clear,
                    is_manual: false,
                    schema_version: (data.schema_file->0).version,
                },
            )
        } else if data.col_levels.levels[0].len() > MAX_COL_L0_FILE_COUNTS || scores.col_l0 {
            Some(Priority::ColumnarL0)
        } else if data.col_levels.levels[1].len() > MAX_COL_L1_FILE_COUNTS || scores.col_l1 {
            let over = vector_override(
                data.vector_indexes,
                states,
                data.col_levels.levels[1][0].snap(),
            );
            if data.vector_indexes.len() > 0 && over is Some {
                over
            } else {
                Some(Priority::ColumnarL1)
            }
        } else {
            None
        }
    }
}

/// How many rows of the table are newer than the index, all of them where there
/// is no index yet.
pub open spec fn new_rows(rows: Seq<TableRows>, table_id: i64, version: SnapVersion) -> int
    decreases rows.len(),
{
    if rows.len() == 0 {
        0
    } else {
        let r = rows.last();
        let known = version.version != 0;
        new_rows(rows.drop_last(), table_id, version) + if r.table_id == table_id && !(known && (
        r.level == 2 || r.snap_version.version <= version.version)) {
            r.rows as int
        } else {
            0
        }
    }
}

/// The new vectors are large enough for an update of the index.
pub open spec fn vectors_grown(
    rows: Seq<TableRows>,
    def: VectorIndexDef,
    version: SnapVersion,
    delta_size: usize,
) -> bool {
    new_rows(rows, def.table_id, version) * def.dimension * 4 >= delta_size
}

/// Where the index of the definition is.
pub open spec fn index_of(v: Seq<Vector>, def: VectorIndexDef) -> Option<int>
    decreases v.len(),
{
    if v.len() == 0 {
        None
    } else if v[0].is_of(def.table_id, def.index_id, def.col_id) {
        Some(0)
    } else {
        match index_of(v.drop_first(), def) {
            Some(i) => Some(i + 1),
            None => None,
        }
    }
}

/// How much the index of a definition needs an update, in tenths, and whether it
/// has to be built anew.
pub open spec fn vector_score(
    data: Data,
    def: VectorIndexDef,
    states: Seq<VectorState>,
    rows: Seq<TableRows>,
    opts: VectorIndexBuildOptions,
) -> (int, bool) {
    match index_of(data.vector_indexes, def) {
        Some(i) => if states[i].legacy {
            (20, true)
        } else if data.vector_indexes[i].files.len() >= opts.rebuild_file_count {
            (11, true)
        } else if vectors_grown(
            rows,
            def,
            SnapVersion { version: data.vector_indexes[i].snap_version },
            opts.delta_size,
        ) {
            (11, data.vector_indexes[i].snap_version == 0)
        } else {
            (0, false)
        },
        None => if vectors_grown(rows, def, SnapVersion { version: 0 }, opts.delta_size) {
            (11, true)
        } else {
            (0, false)
        },
    }
}

/// The definition whose index needs an update most, the first among equals, and
/// its score; of those with a score above ten tenths.
pub open spec fn best_vector(
    data: Data,
    defs: Seq<VectorIndexDef>,
    states: Seq<VectorState>,
    rows: Seq<TableRows>,
    opts: VectorIndexBuildOptions,
) -> (Option<Priority>, int)
    decreases defs.len(),
{
    if defs.len() == 0 {
        (None, 10)
    } else {
        let rest = best_vector(data, defs.drop_last(), states, rows, opts);
        let d = defs.last();
        let (score, rebuild) = vector_score(data, d, states, rows, opts);
        if score > rest.1 {
            (
                Some(
                    Priority::UpdateVectorIndex {
                        table_id: d.table_id,
                        index_id: d.index_id,
                        col_id: d.col_id,
                        rebuild,
                    },
                ),
                score,
            )
        } else {
            rest
        }
    }
}

/// What vector indexes need.
pub open spec fn vector_priority(
    data: Data,
    states: Seq<VectorState>,
    rows: Seq<TableRows>,
    opts: VectorIndexBuildOptions,
) -> Option<Priority> {
    if data.columnar_table_ids.len() == 0 {
        None
    } else {
        match data.schema_file {
            Some(s) => best_vector(data, s.vector_indexes, states, rows, opts).0,
            None => None,
        }
    }
}

/// A table of level 0 reaches outside the shard.
pub open spec fn l0_over_bound(s: Seq<L0Table>, b: Bound) -> bool {
    exists|i: int| 0 <= i < s.len() && !b.covers((#[trigger] s[i]).bound())
}

/// Pending operations and inputs that are found elsewhere.
pub struct Asked {
    /// Prefixes whose keys are to be deleted.
    pub deletion: Deletion,
    /// Versions above this are to be removed.
    pub truncate_ts: Option<u64>,
    /// Keys outside the shard are to be removed.
    pub trim_over_bound: bool,
    /// A compaction that was asked for.
    pub major: MajorCompactionType,
    /// The time.
    pub now: u64,
}

/// Which compaction the shard needs most: what was asked for first, then blobs,
/// columnar files that wait, tables of level 0 that reach outside, the level with
/// the highest score, other columnar files and vector indexes.
pub open spec fn most_needed(
    data: Data,
    asked: Asked,
    opts: PriorityOptions,
    outdated_schema_ver: i64,
    tables: Seq<i64>,
    states: Seq<VectorState>,
    rows: Seq<TableRows>,
    scores: Scores,
) -> Option<Priority> {
    let high = high_priority(data, opts.ignore_columnar_table_load, outdated_schema_ver);
    let columnar = columnar_priority(data, opts, tables, states, scores);
    if can_destroy_range(asked.deletion, asked.now, data) {
        Some(Priority::DestroyRange)
    } else if can_truncate_ts(asked.truncate_ts, data) {
        Some(Priority::TruncateTs)
    } else if asked.trim_over_bound && !data.mem_over_bound() {
        Some(Priority::TrimOverBound)
    } else if can_major_compact(asked.major, data) {
        if asked.major is EnableColumnar {
            Some(
                Priority::ColumnarMajor {
                    add: Seq::empty(),
                    clear: Seq::empty(),
                    is_manual: true,
                    schema_version: (data.schema_file->0).version,
                },
            )
        } else {
            Some(Priority::Major { is_manual: true })
        }
    } else if data.blob_tbls.len() > 0 && scores.blob_gc && data.col_levels.unconverted_l0s.len()
        == 0 {
        Some(Priority::Major { is_manual: false })
    } else if high is Some {
        high
    } else if l0_over_bound(data.l0_tbls, data.range.inner_bound()) {
        Some(Priority::L0)
    } else {
        match scores.highest {
            Some((cf, level)) => if level == 0 {
                Some(Priority::L0)
            } else {
                Some(Priority::L1Plus { cf, level })
            },
            None => if columnar is Some {
                columnar
            } else {
                vector_priority(data, states, rows, opts.vector)
            },
        }
    }
}

/// The rows can be counted in a machine word.
pub open spec fn rows_fit(rows: Seq<TableRows>, def: VectorIndexDef) -> bool {
    let all = new_rows(rows, def.table_id, SnapVersion { version: 0 });
    all <= usize::MAX && all * def.dimension <= usize::MAX && all * def.dimension * 4 <= usize::MAX
}

proof fn lemma_new_rows(rows: Seq<TableRows>, i: int, table_id: i64, version: SnapVersion)
    requires
        0 <= i <= rows.len(),
    ensures
        0 <= new_rows(rows.take(i), table_id, version) <= new_rows(rows, table_id, version),
        new_rows(rows, table_id, version) <= new_rows(rows, table_id, SnapVersion { version: 0 }),
    decreases rows.len(),
{
    if i == rows.len() {
        assert(rows.take(i) =~= rows);
        if rows.len() > 0 {
            let t = rows.drop_last();
            lemma_new_rows(t, t.len() as int, table_id, version);
            assert(t.take(t.len() as int) =~= t);
        }
    } else {
        lemma_new_rows(rows.drop_last(), i, table_id, version);
        assert(rows.drop_last().take(i) =~= rows.take(i));
    }
}

/// Whether the new vectors are large enough for an update of the index.
pub fn need_build_vector_index(
    rows: &Vec<TableRows>,
    def: &VectorIndexDef,
    snap_version: SnapVersion,
    delta_size: usize,
) -> (res: bool)
    requires
        rows_fit(rows@, *def),
    ensures
        res == vectors_grown(rows@, *def, snap_version, delta_size),
{
    let mut total: usize = 0;
    let mut i: usize = 0;
    let ghost all = new_rows(rows@, def.table_id, SnapVersion { version: 0 });
    assert(rows@.take(0) =~= Seq::empty());
    while i < rows.len()
        invariant
            i <= rows@.len(),
            all == new_rows(rows@, def.table_id, SnapVersion { version: 0 }),
            all <= usize::MAX,
            total == new_rows(rows@.take(i as int), def.table_id, snap_version),
        decreases rows@.len() - i,
    {
        proof {
            assert(rows@.take(i + 1).drop_last() =~= rows@.take(i as int));
            lemma_new_rows(rows@, i + 1, def.table_id, snap_version);
        }
        let r = rows[i];
        if r.table_id == def.table_id && !(snap_version.is_not_zero() && (r.level == 2
            || r.snap_version.version <= snap_version.version)) {
            total = total + r.rows;
        }
        i = i + 1;
    }
    proof {
        assert(rows@.take(i as int) =~= rows@);
        lemma_new_rows(rows@, i as int, def.table_id, snap_version);
        assert(total * def.dimension <= all * def.dimension) by (nonlinear_arith)
            requires
                0 <= total <= all,
                0 <= def.dimension,
        ;
    }
    total * def.dimension * 4 >= delta_size
}

fn has_definition(defs: &Vec<VectorIndexDef>, v: &crate::pb::VectorIndex) -> (res: bool)
    ensures
        res == has_def(defs@, vector_of(*v)),
{
    let mut i: usize = 0;
    while i < defs.len()
        invariant
            i <= defs@.len(),
            forall|j: int|
                0 <= j < i ==> !((#[trigger] defs@[j]).table_id == v.table_id && defs@[j].index_id
                    == v.index_id && defs@[j].col_id == v.col_id),
        decreases defs@.len() - i,
    {
        if defs[i].table_id == v.table_id && defs[i].index_id == v.index_id && defs[i].col_id
            == v.col_id {
            return true;
        }
        i = i + 1;
    }
    false
}

/// Whether keys of deleted prefixes can be removed.
pub fn ready_to_destroy_range(
    del_prefixes: &DeletePrefixes,
    now: u64,
    shard_data: &ShardData,
) -> (res: bool)
    requires
        del_prefixes@.matched(),
    ensures
        res == can_destroy_range(del_prefixes@, now, shard_data@),
{
    if del_prefixes.is_empty() || !del_prefixes.after_scheduled_time(now) {
        return false;
    }
    let bounds = del_prefixes.inner_delete_bounds();
    let ghost d = del_prefixes@;
    let mut i: usize = 0;
    while i < shard_data.mem_tbls.len()
        invariant
            i <= shard_data.mem_tbls@.len(),
            d == del_prefixes@,
            bounds@.len() == d.prefixes.len(),
            forall|j: int|
                0 <= j < bounds@.len() ==> (#[trigger] bounds@[j])@ == delete_bound(
                    d.keyspace_prefix_len,
                    d.prefixes[j],
                    d.nexts[j],
                ),
            forall|a: int, j: int|
                0 <= a < i && 0 <= j < d.prefixes.len()
                    ==> !(#[trigger] shard_data@.mem_tbls[a]).in_bound(
                    delete_bound(d.keyspace_prefix_len, #[trigger] d.prefixes[j], d.nexts[j]),
                ),
        decreases shard_data.mem_tbls@.len() - i,
    {
        let mut j: usize = 0;
        while j < bounds.len()
            invariant
                i < shard_data.mem_tbls@.len(),
                j <= bounds@.len(),
                d == del_prefixes@,
                bounds@.len() == d.prefixes.len(),
                forall|j: int|
                    0 <= j < bounds@.len() ==> (#[trigger] bounds@[j])@ == delete_bound(
                        d.keyspace_prefix_len,
                        d.prefixes[j],
                        d.nexts[j],
                    ),
                forall|k: int|
                    0 <= k < j ==> !shard_data@.mem_tbls[i as int].in_bound(
                        delete_bound(d.keyspace_prefix_len, #[trigger] d.prefixes[k], d.nexts[k]),
                    ),
            decreases bounds@.len() - j,
        {
            assert(bounds@[j as int]@ == delete_bound(
                d.keyspace_prefix_len,
                d.prefixes[j as int],
                d.nexts[j as int],
            ));
            if shard_data.mem_tbls[i].has_data_in_bound(bounds[j]) {
                assert(shard_data@.mem_tbls[i as int].in_bound(bounds@[j as int]@));
                return false;
            }
            j = j + 1;
        }
        i = i + 1;
    }
    true
}

/// Whether the newest versions can be removed.
pub fn ready_to_truncate_ts(truncate_ts: Option<u64>, shard_data: &ShardData) -> (res: bool)
    ensures
        res == can_truncate_ts(truncate_ts, shard_data@),
{
    match truncate_ts {
        Some(ts) => {
            let mut i: usize = 0;
            while i < shard_data.mem_tbls.len()
                invariant
                    i <= shard_data.mem_tbls@.len(),
                    truncate_ts == Some(ts),
                    forall|j: int| 0 <= j < i ==> (#[trigger] shard_data@.mem_tbls[j]).max_ts <= ts,
                decreases shard_data.mem_tbls@.len() - i,
            {
                if shard_data.mem_tbls[i].max_ts > ts {
                    assert(shard_data@.mem_tbls[i as int].max_ts > ts);
                    return false;
                }
                i = i + 1;
            }
            true
        },
        None => false,
    }
}

/// Whether keys outside the shard can be removed: none is in memory.
pub fn ready_to_trim_over_bound(trim_over_bound: bool, shard_data: &ShardData) -> (res: bool)
    ensures
        res == (trim_over_bound && !shard_data@.mem_over_bound()),
{
    trim_over_bound && !shard_data.has_mem_over_bound_data()
}

/// Whether a compaction that was asked for can be made.
pub fn ready_to_manual_major_compaction(
    comp: MajorCompactionType,
    shard_data: &ShardData,
) -> (res: bool)
    ensures
        res == can_major_compact(comp, shard_data@),
{
    match comp {
        MajorCompactionType::Disable => false,
        MajorCompactionType::Enable => !shard_data.has_unconverted_l0s(),
        MajorCompactionType::EnableColumnar => {
            let has_columnar = match &shard_data.schema_file {
                Some(f) => f.columnar_tables.len() > 0,
                None => false,
            };
            has_columnar && shard_data.columnar_table_ids.len() > 0
                && shard_data.get_all_col_files().len() > 0
        },
    }
}

/// The tables of the first list that the second has not, in order and each once.
pub fn ids_only_in(a: &Vec<i64>, b: &Vec<i64>) -> (res: Vec<i64>)
    ensures
        res@ == table_difference(a@, b@),
{
    let keep = |id: &i64| -> (r: bool)
        ensures
            r == !b@.contains(*id),
        {
            !contains_i64(b, *id)
        };
    let v = retain_vec(copy_i64s(a), keep, Ghost(|id: i64| !b@.contains(id)));
    sorted_ids(&v)
}

impl ShardData {
    /// What is needed before any compaction of tables.
    pub fn get_col_or_vec_idx_compaction_high_priority(
        &self,
        ignore_columnar: bool,
        outdated_schema_ver: i64,
    ) -> (res: Option<CompactionPriority>)
        ensures
            priority_of(res) == high_priority(self@, ignore_columnar, outdated_schema_ver),
    {
        if ignore_columnar {
            return None;
        }
        let schema = match &self.schema_file {
            Some(schema) => schema,
            None => {
                if self.columnar_table_ids.len() > 0 {
                    return Some(CompactionPriority::ColumnarClear);
                }
                return None;
            },
        };
        if let Some(i) = self.find_dropped(schema) {
            let v = &self.vector_indexes[i];
            return Some(
                CompactionPriority::UpdateVectorIndex {
                    table_id: v.table_id,
                    index_id: v.index_id,
                    col_id: v.col_id,
                    rebuild: true,
                },
            );
        }
        if self.has_unconverted_l0s() {
            if outdated_schema_ver == schema.version {
                if self.has_too_many_unconverted_l0s() {
                    return Some(CompactionPriority::ColumnarClear);
                }
                return None;
            }
            return Some(CompactionPriority::L0ToColumnar);
        }
        None
    }

    fn find_dropped(&self, schema: &SchemaFile) -> (res: Option<usize>)
        ensures
            match res {
                Some(i) => i < self@.vector_indexes.len() && first_dropped(
                    schema@,
                    self@.vector_indexes,
                ) == Some(self@.vector_indexes[i as int]),
                None => first_dropped(schema@, self@.vector_indexes) is None,
            },
    {
        let ghost s = self@.vector_indexes;
        let mut i: usize = 0;
        assert(s.skip(0) =~= s);
        while i < self.vector_indexes.len()
            invariant
                i <= self.vector_indexes@.len(),
                s == self@.vector_indexes,
                first_dropped(schema@, s) == first_dropped(schema@, s.skip(i as int)),
            decreases self.vector_indexes@.len() - i,
        {
            let v = &self.vector_indexes[i];
            assert(s.skip(i as int)[0] == vector_of(*v));
            if contains_i64(&schema.tables, v.table_id) && !has_definition(
                &schema.vector_indexes,
                v,
            ) {
                return Some(i);
            }
            assert(s.skip(i as int).drop_first() =~= s.skip(i + 1));
            i = i + 1;
        }
        None
    }

    /// The tables that are to be kept as columns and are not yet, and those that
    /// are and are no longer to be. `tables` are the tables of the schema that
    /// overlap the shard.
    pub fn get_table_ids_need_columnar_major_compaction(&self, tables: &Vec<i64>) -> (res: (
        Vec<i64>,
        Vec<i64>,
    ))
        ensures
            match self@.schema_file {
                Some(_) => {
                    &&& res.0@ == table_difference(tables@, self@.columnar_table_ids)
                    &&& res.1@ == table_difference(self@.columnar_table_ids, tables@)
                },
                None => res.0@.len() == 0 && res.1@.len() == 0,
            },
    {
        if self.schema_file.is_none() {
            return (Vec::new(), Vec::new());
        }
        (ids_only_in(tables, &self.columnar_table_ids), ids_only_in(&self.columnar_table_ids, tables))
    }

    /// The first vector index that has to be updated before columnar files are
    /// merged into level 2, which would make it useless.
    fn maybe_override_by_vector_index(&self, states: &Vec<VectorState>) -> (res: Option<
        CompactionPriority,
    >)
        requires
            self@.wf(),
            self@.col_levels.levels[1].len() > 0,
            states@.len() == self@.vector_indexes.len(),
        ensures
            priority_of(res) == vector_override(
                self@.vector_indexes,
                states@,
                self@.col_levels.levels[1][0].snap(),
            ),
    {
        let first = &self.col_levels.levels[1][0];
        let version = match first.snap_version {
            Some(v) => v,
            None => SnapVersion::zero(),
        };
        let ghost s = self@.vector_indexes;
        let mut i: usize = 0;
        assert(s.skip(0) =~= s);
        assert(states@.skip(0) =~= states@);
        while i < self.vector_indexes.len()
            invariant
                i <= self.vector_indexes@.len(),
                s == self@.vector_indexes,
                states@.len() == s.len(),
                version == self@.col_levels.levels[1][0].snap(),
                vector_override(s, states@, version) == vector_override(
                    s.skip(i as int),
                    states@.skip(i as int),
                    version,
                ),
            decreases self.vector_indexes@.len() - i,
        {
            let v = &self.vector_indexes[i];
            assert(s.skip(i as int)[0] == vector_of(*v));
            assert(states@.skip(i as int)[0] == states@[i as int]);
            if states[i].need_rebuild || v.snap_version < version.version {
                return Some(
                    CompactionPriority::UpdateVectorIndex {
                        table_id: v.table_id,
                        index_id: v.index_id,
                        col_id: v.col_id,
                        rebuild: states[i].need_rebuild,
                    },
                );
            }
            assert(s.skip(i as int).drop_first() =~= s.skip(i + 1));
            assert(states@.skip(i as int).drop_first() =~= states@.skip(i + 1));
            i = i + 1;
        }
        None
    }

    /// What columnar files need.
    pub fn get_columnar_compaction_priority(
        &self,
        opts: &PriorityOptions,
        tables: &Vec<i64>,
        states: &Vec<VectorState>,
        scores: &Scores,
    ) -> (res: Option<CompactionPriority>)
        requires
            self@.wf(),
            states@.len() == self@.vector_indexes.len(),
            scores.col_l1 ==> self@.col_levels.levels[1].len() > 0,
        ensures
            priority_of(res) == columnar_priority(self@, *opts, tables@, states@, *scores),
    {
        if opts.ignore_columnar_table_load {
            return None;
        }
        let schema_version = match &self.schema_file {
            Some(schema) => schema.version,
            None => {
                return None;
            },
        };
        let (add, clear) = self.get_table_ids_need_columnar_major_compaction(tables);
        if opts.build_columnar && (add.len() > 0 || clear.len() > 0) {
            return Some(
                CompactionPriority::ColumnarMajor {
                    table_ids_to_add: add,
                    table_ids_to_clear: clear,
                    is_manual: false,
                    schema_version,
                },
            );
        }
        if self.get_col_table_counts(0) > MAX_COL_L0_FILE_COUNTS || scores.col_l0 {
            return Some(CompactionPriority::ColumnarL0);
        }
        if self.get_col_table_counts(1) > MAX_COL_L1_FILE_COUNTS || scores.col_l1 {
            if self.vector_indexes.len() > 0 {
                if let Some(p) = self.maybe_override_by_vector_index(states) {
                    return Some(p);
                }
            }
            return Some(CompactionPriority::ColumnarL1);
        }
        None
    }

    fn find_index(&self, def: &VectorIndexDef) -> (res: Option<usize>)
        ensures
            match res {
                Some(i) => i < self@.vector_indexes.len() && index_of(self@.vector_indexes, *def)
                    == Some(i as int),
                None => index_of(self@.vector_indexes, *def) is None,
            },
    {
        let ghost s = self@.vector_indexes;
        let mut i: usize = 0;
        assert(s.skip(0) =~= s);
        while i < self.vector_indexes.len()
            invariant
                i <= self.vector_indexes@.len(),
                s == self@.vector_indexes,
                index_of(s, *def) == match index_of(s.skip(i as int), *def) {
                    Some(k) => Some(k + i),
                    None => None,
                },
            decreases self.vector_indexes@.len() - i,
        {
            let v = &self.vector_indexes[i];
            assert(s.skip(i as int)[0] == vector_of(*v));
            if v.table_id == def.table_id && v.index_id == def.index_id && v.col_id
                == def.col_id {
                return Some(i);
            }
            assert(s.skip(i as int).drop_first() =~= s.skip(i + 1));
            i = i + 1;
        }
        None
    }

    /// How much the index of a definition needs an update, in tenths, and whether
    /// it has to be built anew.
    fn vector_index_score(
        &self,
        def: &VectorIndexDef,
        states: &Vec<VectorState>,
        rows: &Vec<TableRows>,
        opts: &VectorIndexBuildOptions,
    ) -> (res: (u32, bool))
        requires
            states@.len() == self@.vector_indexes.len(),
            rows_fit(rows@, *def),
        ensures
            (res.0 as int, res.1) == vector_score(self@, *def, states@, rows@, *opts),
    {
        match self.find_index(def) {
            Some(i) => {
                assert(self@.vector_indexes[i as int] == vector_of(self.vector_indexes@[i as int]));
                if states[i].legacy {
                    return (20, true);
                }
                if self.vector_indexes[i].files.len() >= opts.rebuild_file_count {
                    return (11, true);
                }
                let version = SnapVersion { version: self.vector_indexes[i].snap_version };
                if !need_build_vector_index(rows, def, version, opts.delta_size) {
                    return (0, false);
                }
                (11, !version.is_not_zero())
            },
            None => {
                if !need_build_vector_index(rows, def, SnapVersion::zero(), opts.delta_size) {
                    return (0, false);
                }
                (11, true)
            },
        }
    }

    /// What vector indexes need.
    pub fn get_vector_index_priority(
        &self,
        states: &Vec<VectorState>,
        rows: &Vec<TableRows>,
        opts: &VectorIndexBuildOptions,
    ) -> (res: Option<CompactionPriority>)
        requires
            states@.len() == self@.vector_indexes.len(),
            self@.schema_file matches Some(s) ==> forall|i: int|
                0 <= i < s.vector_indexes.len() ==> rows_fit(rows@, #[trigger] s.vector_indexes[i]),
        ensures
            priority_of(res) == vector_priority(self@, states@, rows@, *opts),
    {
        if self.columnar_table_ids.len() == 0 {
            return None;
        }
        let schema = match &self.schema_file {
            Some(schema) => schema,
            None => {
                return None;
            },
        };
        let ghost defs = schema@.vector_indexes;
        let mut priority: Option<CompactionPriority> = None;
        let mut max_score: u32 = 10;
        let mut i: usize = 0;
        assert(defs.take(0) =~= Seq::empty());
        while i < schema.vector_indexes.len()
            invariant
                i <= schema.vector_indexes@.len(),
                defs == schema.vector_indexes@,
                states@.len() == self@.vector_indexes.len(),
                forall|i: int| 0 <= i < defs.len() ==> rows_fit(rows@, #[trigger] defs[i]),
                (priority_of(priority), max_score as int) == best_vector(
                    self@,
                    defs.take(i as int),
                    states@,
                    rows@,
                    *opts,
                ),
            decreases schema.vector_indexes@.len() - i,
        {
            let def = schema.vector_indexes[i];
            assert(defs.take(i + 1).drop_last() =~= defs.take(i as int));
            assert(rows_fit(rows@, defs[i as int]));
            let (score, rebuild) = self.vector_index_score(&def, states, rows, opts);
            if score > max_score {
                max_score = score;
                priority =
                Some(
                    CompactionPriority::UpdateVectorIndex {
                        table_id: def.table_id,
                        index_id: def.index_id,
                        col_id: def.col_id,
                        rebuild,
                    },
                );
            }
            i = i + 1;
        }
        assert(defs.take(i as int) =~= defs);
        priority
    }

    fn has_l0_over_bound(&self) -> (res: bool)
        ensures
            res == l0_over_bound(self@.l0_tbls, self@.range.inner_bound()),
    {
        let bound = self.range.data_bound();
        let mut i: usize = 0;
        while i < self.l0_tbls.len()
            invariant
                i <= self.l0_tbls@.len(),
                bound@ == self@.range.inner_bound(),
                forall|j: int| 0 <= j < i ==> bound@.covers((#[trigger] self@.l0_tbls[j]).bound()),
            decreases self.l0_tbls@.len() - i,
        {
            if !bound.contains_bound(self.l0_tbls[i].data_bound()) {
                assert(!bound@.covers(self@.l0_tbls[i as int].bound()));
                return true;
            }
            i = i + 1;
        }
        false
    }

    /// Which compaction the shard needs most, if any.
    pub fn get_compaction_priority(
        &self,
        del_prefixes: &DeletePrefixes,
        truncate_ts: Option<u64>,
        trim_over_bound: bool,
        major: MajorCompactionType,
        now: u64,
        opts: &PriorityOptions,
        outdated_schema_ver: i64,
        tables: &Vec<i64>,
        states: &Vec<VectorState>,
        rows: &Vec<TableRows>,
        scores: &Scores,
    ) -> (res: Option<CompactionPriority>)
        requires
            self@.wf(),
            del_prefixes@.matched(),
            states@.len() == self@.vector_indexes.len(),
            scores.col_l1 ==> self@.col_levels.levels[1].len() > 0,
            self@.schema_file matches Some(s) ==> forall|i: int|
                0 <= i < s.vector_indexes.len() ==> rows_fit(rows@, #[trigger] s.vector_indexes[i]),
        ensures
            priority_of(res) == most_needed(
                self@,
                Asked { deletion: del_prefixes@, truncate_ts, trim_over_bound, major, now },
                *opts,
                outdated_schema_ver,
                tables@,
                states@,
                rows@,
                *scores,
            ),
    {
        if ready_to_destroy_range(del_prefixes, now, self) {
            return Some(CompactionPriority::DestroyRange);
        }
        if ready_to_truncate_ts(truncate_ts, self) {
            return Some(CompactionPriority::TruncateTs);
        }
        if ready_to_trim_over_bound(trim_over_bound, self) {
            return Some(CompactionPriority::TrimOverBound);
        }
        if ready_to_manual_major_compaction(major, self) {
            if let MajorCompactionType::EnableColumnar = major {
                let schema_version: i64 = match &self.schema_file {
                    Some(schema) => schema.version,
                    None => 0,
                };
                let p = CompactionPriority::ColumnarMajor {
                    table_ids_to_add: Vec::new(),
                    table_ids_to_clear: Vec::new(),
                    is_manual: true,
                    schema_version,
                };
                assert(p@ =~= Priority::ColumnarMajor {
                    add: Seq::empty(),
                    clear: Seq::empty(),
                    is_manual: true,
                    schema_version,
                });
                return Some(p);
            }
            return Some(CompactionPriority::Major { is_manual: true });
        }
        if self.blob_tbls.len() > 0 && scores.blob_gc && !self.has_unconverted_l0s() {
            return Some(CompactionPriority::Major { is_manual: false });
        }
        if let Some(p) = self.get_col_or_vec_idx_compaction_high_priority(
            opts.ignore_columnar_table_load,
            outdated_schema_ver,
        ) {
            return Some(p);
        }
        if self.has_l0_over_bound() {
            return Some(CompactionPriority::L0);
        }
        match scores.highest {
            Some((cf, level)) => {
                if level == 0 {
                    return Some(CompactionPriority::L0);
                }
                return Some(CompactionPriority::L1Plus { cf, level });
            },
            None => {},
        }
        if let Some(p) = self.get_columnar_compaction_priority(opts, tables, states, scores) {
            return Some(p);
        }
        self.get_vector_index_priority(states, rows, &opts.vector)
    }
}

} // verus!
