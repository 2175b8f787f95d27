//! Merging the data of two shards.
use bytes::Bytes;
use std::collections::HashMap;
use vstd::prelude::*;

use crate::bound::BoundedDataSet;
use crate::buf::content;
use crate::del_prefixes::{
    decoded, encoded, law_marshal_roundtrip, lemma_decoded_short, lemma_merge_all_short,
    merge_all, merge_del_prefixes_if_needed, prefixes_at_least, property_decodes,
    property_prefixes, DeletePrefixes,
};
use crate::file_meta::{FileMeta, SnapVersion};
use crate::key::{bytes_eq, bytes_lt, lex_lt};
use crate::keyspace::{
    get_keyspace_prefix, is_belongs_to_same_keyspace, keyspace_prefix_of, prefix_len_of_id,
    same_keyspace,
};
use crate::lists::{any_between, contains_u64, copy_i64s, has_between, retain_vec};
use crate::merge_rule::{leaves, need_clear_region_data_on_merge};
use crate::meta::merge::add_files;
use crate::pb;
use crate::pb::StorageClassSpec;
use crate::properties::{
    get_opt_property, lemma_asking_keys_differ, lemma_keys_differ, lemma_recovered_keys_differ,
    opt_props_valid, opt_value, value_of, Properties, DEL_PREFIXES_KEY, ENCRYPTION_KEY,
    MANUAL_MAJOR_COMPACTION, STORAGE_CLASS_KEY, TRIM_OVER_BOUND,
};
use crate::range::{Range, ShardRange};
use crate::shard::data::{
    copy_columnar_files, copy_fts_files, copy_l0s, ids_of_blobs, mem_max_ts, BlobTable, Columnar,
    ColumnarFile, ColumnarLevels, Data, L0Table, Mem, MemTable, SchemaFile, ShardData, TxnFile,
};
use crate::shard::levels::{
    cf_levels, level_of, sorted_tables, Level, ShardCf, ShardCfBuilder, SsTable,
};
use crate::shard::ops::{
    copy_txn_files, deletion_of, deletion_set, no_gc_stats, GcStats, MajorCompactionType, Pending,
    Shard, ShardPendingOperations,
};
use crate::vectors::{
    copy_vector, copy_vectors, merge_vector, retain_vectors, vector_of, vectors_of,
    vectors_of_tables, vectors_with, Vector,
};

verus! {

broadcast use vstd::std_specs::hash::group_hash_axioms;

/// What stands in the way of a merge.
#[derive(Clone, Copy, Debug, PartialEq, Eq, Structural)]
pub struct CheckMergeResult {
    /// Data of the source reaches outside it.
    pub source_overbound: bool,
    /// Data of the target reaches outside it.
    pub target_overbound: bool,
    /// The source would have to be empty and is not.
    pub source_require_empty: bool,
    /// The target would have to be empty and is not.
    pub target_require_empty: bool,
    /// Both are of one keyspace and have different keys.
    pub inconsistent_encryption_key: bool,
    /// The storage classes do not go together.
    pub inconsistent_storage_class_spec: bool,
}

/// Why a merge cannot even be looked at.
#[derive(Clone, Copy, Debug, PartialEq, Eq, Structural)]
pub enum MergeDenied {
    /// The source is not flushed yet.
    SourceNotInitialFlushed,
    /// A transaction file of the source holds locks.
    SourceHasTxnFileLocks,
    /// The target is not flushed yet.
    TargetNotInitialFlushed,
    /// A transaction file of the shard holds locks.
    HasTxnFileLocks,
    /// A table of level 0 has no columnar file yet.
    HasUnconvertedL0s,
}

impl Shard {
    /// There is no data, or all of it is to be deleted.
    pub open spec fn as_good_as_empty(self) -> bool {
        let prefix = match keyspace_prefix_of(self.range@.start) {
            Some(p) => p,
            None => Seq::empty(),
        };
        ||| self.estimated_size == 0 && forall|i: int|
            0 <= i < self.data@.mem_tbls.len() ==> (#[trigger] self.data@.mem_tbls[i]).keys.len()
                == 0
        ||| self.pending_ops@.deletion.deletes_keyspace(prefix)
    }

    /// Whether there is no data, or all of it is to be deleted.
    fn is_as_good_as_empty(&self) -> (res: bool)
        ensures
            res == self.as_good_as_empty(),
    {
        if self.is_empty() {
            return true;
        }
        match get_keyspace_prefix(&self.range.outer_start) {
            Some(p) => self.pending_ops.del_prefixes.cover_full_keyspace(p),
            None => {
                let none: Vec<u8> = Vec::new();
                let prefix = none.as_slice();
                assert(prefix@ =~= Seq::<u8>::empty());
                self.pending_ops.del_prefixes.cover_full_keyspace(prefix)
            },
        }
    }
}

/// The encryption keys are the same, or both are missing.
pub open spec fn same_key(a: Option<Bytes>, b: Option<Bytes>) -> bool {
    match (a, b) {
        (Some(a), Some(b)) => content(a) == content(b),
        (None, None) => true,
        _ => false,
    }
}

/// The storage classes do not go together: within a keyspace they must be the same
/// and of one table, unless there is none; across keyspaces there must be none.
pub open spec fn classes_conflict(
    same: bool,
    source: StorageClassSpec,
    target: StorageClassSpec,
    same_table: bool,
) -> bool {
    if same {
        (source.specified || target.specified) && (source != target || !same_table)
    } else {
        source.specified || target.specified
    }
}

/// What stands in the way of a merge of the source into the target. `same_table`
/// says that both begin in one table.
pub fn check_merge(source: &Shard, target: &Shard, same_table: bool) -> (res: Result<
    CheckMergeResult,
    MergeDenied,
>)
    ensures
        res == if !source.initial_flushed {
            Err(MergeDenied::SourceNotInitialFlushed)
        } else if source.data@.lock_txn_files.len() > 0 {
            Err(MergeDenied::SourceHasTxnFileLocks)
        } else if !target.initial_flushed {
            Err(MergeDenied::TargetNotInitialFlushed)
        } else {
            let same = same_keyspace(source.range@.start, target.range@.start);
            Ok(
                CheckMergeResult {
                    source_overbound: source.data@.mem_over_bound()
                        || source.data@.file_over_bound(),
                    target_overbound: target.data@.mem_over_bound()
                        || target.data@.file_over_bound(),
                    source_require_empty: leaves(source.range@.start, target.range@.start)
                        && !source.as_good_as_empty(),
                    target_require_empty: leaves(target.range@.start, source.range@.start)
                        && !target.as_good_as_empty(),
                    inconsistent_encryption_key: same && !same_key(
                        source.encryption_key,
                        target.encryption_key,
                    ),
                    inconsistent_storage_class_spec: classes_conflict(
                        same,
                        source.pending_ops@.storage_class,
                        target.pending_ops@.storage_class,
                        same_table,
                    ),
                },
            )
        },
{
    if !source.initial_flushed {
        return Err(MergeDenied::SourceNotInitialFlushed);
    }
    if source.data.has_txn_file_locks() {
        return Err(MergeDenied::SourceHasTxnFileLocks);
    }
    if !target.initial_flushed {
        return Err(MergeDenied::TargetNotInitialFlushed);
    }
    let same = is_belongs_to_same_keyspace(&source.range.outer_start, &target.range.outer_start);
    let keys_match = match (&source.encryption_key, &target.encryption_key) {
        (Some(a), Some(b)) => bytes_eq(a, b),
        (None, None) => true,
        _ => false,
    };
    let source_class = source.pending_ops.storage_class_spec;
    let target_class = target.pending_ops.storage_class_spec;
    let any_class = source_class.is_specified() || target_class.is_specified();
    let inconsistent_storage_class_spec = if same {
        any_class && (source_class != target_class || !same_table)
    } else {
        any_class
    };
    let (clear_source, clear_target) = need_clear_region_data_on_merge(
        &source.range.outer_start,
        &target.range.outer_start,
    );
    Ok(
        CheckMergeResult {
            source_overbound: source.data.has_over_bound_data(),
            target_overbound: target.data.has_over_bound_data(),
            source_require_empty: clear_source && !source.is_as_good_as_empty(),
            target_require_empty: clear_target && !target.is_as_good_as_empty(),
            inconsistent_encryption_key: same && !keys_match,
            inconsistent_storage_class_spec,
        },
    )
}

/// A shard that is merged into another, with its open files.
pub struct MergeSource {
    /// Version of the source.
    pub ver: u64,
    /// Sequence of its last change.
    pub sequence: u64,
    /// Its snapshot.
    pub snapshot: pb::Snapshot,
    /// Tables of level 0.
    pub l0_tbls: Vec<L0Table>,
    /// Tables of the lower levels, in the order of the snapshot.
    pub tables: Vec<SsTable>,
    /// Blob tables.
    pub blob_tbls: Vec<BlobTable>,
    /// Columnar files, in the order of the snapshot.
    pub col_files: Vec<ColumnarFile>,
    /// Schema file.
    pub schema_file: Option<SchemaFile>,
    /// Tables that are not loaded yet.
    pub unloaded_tbls: HashMap<u64, FileMeta>,
    /// Transaction files that hold locks.
    pub lock_txn_files: Vec<TxnFile>,
}

impl MergeSource {
    /// There is an open file for each that the snapshot lists, and each has a
    /// place.
    pub open spec fn wf(self) -> bool {
        &&& self.tables@.len() == self.snapshot.table_creates@.len()
        &&& self.col_files@.len() == self.snapshot.columnar_creates@.len()
        &&& all_placed(self.snapshot.table_creates@)
        &&& forall|i: int|
            0 <= i < self.snapshot.columnar_creates@.len() ==> (
            #[trigger] self.snapshot.columnar_creates@[i]).level < 3
    }
}

/// Each table has a column family and a level that there is.
pub open spec fn all_placed(creates: Seq<pb::TableCreate>) -> bool {
    forall|i: int|
        0 <= i < creates.len() ==> {
            let t = #[trigger] creates[i];
            0 <= t.cf < 3 && 1 <= t.level <= cf_levels(t.cf as int)
        }
}

/// The tables of the list that go to the level of the column family, in order.
pub open spec fn tables_for(
    tables: Seq<SsTable>,
    creates: Seq<pb::TableCreate>,
    cf: int,
    level: int,
) -> Seq<SsTable>
    decreases creates.len(),
{
    if creates.len() == 0 {
        Seq::empty()
    } else {
        let rest = tables_for(tables, creates.drop_last(), cf, level);
        let c = creates.last();
        if c.cf == cf && c.level == level {
            rest.push(tables[creates.len() - 1])
        } else {
            rest
        }
    }
}

/// The columnar files of the list that go to the level, in order.
pub open spec fn files_for(
    files: Seq<ColumnarFile>,
    creates: Seq<pb::ColumnarCreate>,
    level: int,
) -> Seq<ColumnarFile>
    decreases creates.len(),
{
    if creates.len() == 0 {
        Seq::empty()
    } else {
        let rest = files_for(files, creates.drop_last(), level);
        if creates.last().level == level {
            rest.push(files[creates.len() - 1])
        } else {
            rest
        }
    }
}

/// A list of tables of level 0 with one more, behind those that are not older.
pub open spec fn insert_l0(s: Seq<L0Table>, t: L0Table) -> Seq<L0Table>
    decreases s.len(),
{
    if s.len() == 0 {
        seq![t]
    } else if s.last().version.version >= t.version.version {
        s.push(t)
    } else {
        insert_l0(s.drop_last(), t).push(s.last())
    }
}

/// The tables of level 0, the newest first; those of one version stay in order.
pub open spec fn newest_first(s: Seq<L0Table>) -> Seq<L0Table>
    decreases s.len(),
{
    if s.len() == 0 {
        Seq::empty()
    } else {
        insert_l0(newest_first(s.drop_last()), s.last())
    }
}

/// The versions of the tables do not increase.
pub open spec fn versions_fall(s: Seq<L0Table>) -> bool {
    forall|i: int, j: int|
        0 <= i < j < s.len() ==> (#[trigger] s[i]).version.version >= (
        #[trigger] s[j]).version.version
}

proof fn lemma_insert_l0(s: Seq<L0Table>, t: L0Table)
    requires
        versions_fall(s),
    ensures
        versions_fall(insert_l0(s, t)),
        insert_l0(s, t).to_multiset() =~= s.to_multiset().insert(t),
    decreases s.len(),
{
    let r = insert_l0(s, t);
    broadcast use vstd::seq_lib::group_to_multiset_ensures;

    if s.len() == 0 {
        assert(r =~= s.push(t));
    } else if s.last().version.version >= t.version.version {
        assert forall|i: int, j: int| 0 <= i < j < r.len() implies (
        #[trigger] r[i]).version.version >= (#[trigger] r[j]).version.version by {
            if j == s.len() && i < s.len() - 1 {
                assert(s[i].version.version >= s[s.len() - 1].version.version);
            }
        }
    } else {
        let h = s.drop_last();
        lemma_insert_l0(h, t);
        let u = insert_l0(h, t);
        assert(s =~= h.push(s.last()));
        assert(u.to_multiset() =~= h.to_multiset().insert(t));
        assert forall|i: int, j: int| 0 <= i < j < r.len() implies (
        #[trigger] r[i]).version.version >= (#[trigger] r[j]).version.version by {
            if j == u.len() {
                let x = u[i];
                assert(u.contains(x));
                assert(u.to_multiset().contains(x));
                if x != t {
                    assert(h.to_multiset().contains(x));
                    assert(h.contains(x));
                    let k = choose|k: int| 0 <= k < h.len() && h[k] == x;
                    assert(s[k].version.version >= s[s.len() - 1].version.version);
                }
            }
        }
        assert(r.to_multiset() =~= u.to_multiset().insert(s.last()));
        assert(s.to_multiset() =~= h.to_multiset().insert(s.last()));
    }
}

/// Sorting keeps the tables of level 0, the newest first.
pub proof fn law_newest_first(s: Seq<L0Table>)
    ensures
        versions_fall(newest_first(s)),
        newest_first(s).to_multiset() == s.to_multiset(),
    decreases s.len(),
{
    broadcast use vstd::seq_lib::group_to_multiset_ensures;

    if s.len() > 0 {
        law_newest_first(s.drop_last());
        lemma_insert_l0(newest_first(s.drop_last()), s.last());
        assert(s =~= s.drop_last().push(s.last()));
    } else {
        assert(newest_first(s) =~= s);
    }
}

pub(crate) fn sort_l0s(v: &Vec<L0Table>) -> (res: Vec<L0Table>)
    ensures
        res@ == newest_first(v@),
{
    let mut res: Vec<L0Table> = Vec::new();
    let mut i: usize = 0;
    assert(v@.take(0) =~= Seq::empty());
    while i < v.len()
        invariant
            i <= v@.len(),
            res@ == newest_first(v@.take(i as int)),
        decreases v@.len() - i,
    {
        assert(v@.take(i + 1).drop_last() =~= v@.take(i as int));
        let t = v[i].clone();
        let ghost s = res@;
        let mut j: usize = res.len();
        assert(s.take(j as int) =~= s);
        assert(insert_l0(s, t) =~= insert_l0(s.take(j as int), t) + s.skip(j as int));
        while j > 0 && res[j - 1].version.version < t.version.version
            invariant
                j <= res@.len(),
                res@ == s,
                insert_l0(s, t) == insert_l0(s.take(j as int), t) + s.skip(j as int),
            decreases j,
        {
            proof {
                let h = s.take(j as int);
                assert(h.drop_last() =~= s.take(j - 1));
                assert(insert_l0(s.take(j - 1), t) + s.skip(j - 1) =~= insert_l0(
                    s.take(j - 1),
                    t,
                ).push(h.last()) + s.skip(j as int));
            }
            j = j - 1;
        }
        assert(insert_l0(s.take(j as int), t) =~= s.take(j as int).push(t));
        res.insert(j, t);
        assert(res@ =~= s.take(j as int).push(t) + s.skip(j as int));
        i = i + 1;
    }
    assert(v@.take(i as int) =~= v@);
    res
}

/// The blob tables, those of the second list in place of those with the same id.
pub open spec fn blobs_merged(a: Seq<BlobTable>, b: Seq<BlobTable>) -> Seq<BlobTable> {
    a.filter(|t: BlobTable| !ids_of_blobs(b).contains(t.id)) + b
}

/// The indexes with those of the source merged in, each with the higher of the two
/// versions.
pub open spec fn vectors_joined(s: Seq<Vector>, other: Seq<Vector>) -> Seq<Vector>
    decreases other.len(),
{
    if other.len() == 0 {
        s
    } else {
        vectors_raised(
            vectors_with(vectors_joined(s, other.drop_last()), other.last()),
            other.last(),
        )
    }
}

/// The first index with the ids of `v` gets at least its version.
pub open spec fn vectors_raised(s: Seq<Vector>, v: Vector) -> Seq<Vector>
    decreases s.len(),
{
    if s.len() == 0 {
        s
    } else if s[0].is_of(v.table_id, v.index_id, v.col_id) {
        seq![
            Vector {
                snap_version: if s[0].snap_version >= v.snap_version {
                    s[0].snap_version
                } else {
                    v.snap_version
                },
                ..s[0]
            },
        ] + s.drop_first()
    } else {
        seq![s[0]] + vectors_raised(s.drop_first(), v)
    }
}

/// The columnar files that may hold keys of the listed tables, and no waiting
/// tables where none is listed.
pub open spec fn columnar_of_tables(c: Columnar, ids: Seq<i64>) -> Columnar {
    Columnar {
        levels: Seq::new(
            c.levels.len(),
            |i: int|
                c.levels[i].filter(
                    |f: ColumnarFile| any_between(ids, f.table_ids.min, f.table_ids.max),
                ),
        ),
        unconverted_l0s: if ids.len() == 0 {
            Seq::empty()
        } else {
            c.unconverted_l0s
        },
        ..c
    }
}

/// The levels of a column family with the tables of the source.
pub open spec fn levels_merged(
    levels: Seq<Level>,
    tables: Seq<SsTable>,
    creates: Seq<pb::TableCreate>,
    cf: int,
) -> Seq<Level> {
    Seq::new(
        cf_levels(cf) as nat,
        |l: int|
            level_of(
                sorted_tables(levels[l].tables + tables_for(tables, creates, cf, l + 1)),
                (l + 1) as usize,
            ),
    )
}

impl Data {
    /// The data of both shards in one, with the columnar files of each level in one of
    /// their orders. `ids` are the tables that are kept as columns in both.
    pub open spec fn merged(
        self,
        source: MergeSource,
        range: Range,
        inner_key_off: usize,
        ids: Seq<i64>,
    ) -> Data {
        let snap = source.snapshot;
        let col = Columnar {
            levels: Seq::new(
                self.col_levels.levels.len(),
                |i: int|
                    self.col_levels.levels[i] + files_for(
                        source.col_files@,
                        snap.columnar_creates@,
                        i,
                    ),
            ),
            unconverted_l0s: self.col_levels.unconverted_l0s,
            l2_snap_version: self.col_levels.l2_snap_version.spec_max(
                SnapVersion { version: snap.columnar_l2_snap_version },
            ),
        };
        let takes_schema = self.schema_file is None && source.schema_file is Some;
        Data {
            range,
            inner_key_off,
            mem_tbls: self.mem_tbls,
            lock_txn_files: self.lock_txn_files,
            l0_tbls: newest_first(self.l0_tbls + source.l0_tbls@),
            blob_tbls: blobs_merged(self.blob_tbls, source.blob_tbls@),
            cfs: Seq::new(
                3,
                |c: int|
                    levels_merged(self.cfs[c], source.tables@, snap.table_creates@, c),
            ),
            unloaded_tbls: source.unloaded_tbls@.union_prefer_right(self.unloaded_tbls),
            update_counter: (self.update_counter + 1) as u64,
            schema_version: if takes_schema {
                (source.schema_file->0)@.version
            } else {
                self.schema_version
            },
            restore_version: if takes_schema {
                (source.schema_file->0)@.restore_version
            } else {
                self.restore_version
            },
            schema_file: if takes_schema {
                Some((source.schema_file->0)@)
            } else {
                self.schema_file
            },
            col_levels: columnar_of_tables(col, ids),
            vector_indexes: vectors_of_tables(
                vectors_joined(self.vector_indexes, vectors_of(snap.vector_indexes@)),
                ids,
            ),
            columnar_table_ids: ids,
            fts_l0_files: self.fts_l0_files,
            fts_l1_files: self.fts_l1_files,
            fts_l2_files: self.fts_l2_files,
            persisted_version: self.persisted_version.spec_max(
                SnapVersion { version: (snap.base_version + snap.data_sequence) as u64 },
            ),
        }
    }
}

pub(crate) fn merge_blobs(a: &Vec<BlobTable>, b: &Vec<BlobTable>) -> (res: Vec<BlobTable>)
    ensures
        res@ == blobs_merged(a@, b@),
{
    let mut ids: Vec<u64> = Vec::new();
    let mut i: usize = 0;
    while i < b.len()
        invariant
            i <= b@.len(),
            ids@ =~= ids_of_blobs(b@.take(i as int)),
        decreases b@.len() - i,
    {
        ids.push(b[i].id);
        i = i + 1;
    }
    assert(b@.take(i as int) =~= b@);
    let own = a.clone();
    assert(own@ =~= a@);
    let keep = |t: &BlobTable| -> (r: bool)
        ensures
            r == !ids@.contains(t.id),
        {
            !contains_u64(&ids, t.id)
        };
    let mut res = retain_vec(own, keep, Ghost(|t: BlobTable| !ids@.contains(t.id)));
    let ghost first = res@;
    res.extend_from_slice(b.as_slice());
    assert(res@ =~= first + b@);
    res
}

fn raise_vector(v: &mut Vec<pb::VectorIndex>, other: &pb::VectorIndex)
    ensures
        vectors_of(final(v)@) == vectors_raised(vectors_of(old(v)@), vector_of(*other)),
{
    let ghost s = vectors_of(v@);
    let ghost o = vector_of(*other);
    let mut i: usize = 0;
    assert(s.skip(0) =~= s);
    assert(s.take(0) + vectors_raised(s.skip(0), o) =~= vectors_raised(s, o));
    while i < v.len()
        invariant
            i <= v@.len(),
            s == vectors_of(v@),
            *v == *old(v),
            o == vector_of(*other),
            s.take(i as int) + vectors_raised(s.skip(i as int), o) == vectors_raised(s, o),
        decreases v@.len() - i,
    {
        let ghost rest = s.skip(i as int);
        assert(rest[0] == s[i as int]);
        if v[i].table_id == other.table_id && v[i].index_id == other.index_id && v[i].col_id
            == other.col_id {
            let mut x = copy_vector(&v[i]);
            if x.snap_version < other.snap_version {
                x.snap_version = other.snap_version;
            }
            let ghost y = vector_of(x);
            let ghost before = v@;
            v.set(i, x);
            proof {
                assert(vectors_of(v@) =~= s.update(i as int, y));
                assert(vectors_of(v@) =~= s.take(i as int) + (seq![y] + rest.drop_first()));
                assert(y =~= Vector {
                    snap_version: if rest[0].snap_version >= o.snap_version {
                        rest[0].snap_version
                    } else {
                        o.snap_version
                    },
                    ..rest[0]
                });
            }
            return;
        }
        proof {
            assert(rest.drop_first() =~= s.skip(i + 1));
            assert(s.take(i + 1) + vectors_raised(s.skip(i + 1), o) =~= s.take(i as int) + (
            seq![rest[0]] + vectors_raised(rest.drop_first(), o)));
        }
        i = i + 1;
    }
    assert(s.skip(i as int) =~= Seq::empty());
    assert(s.take(i as int) =~= s);
}

fn join_vectors(own: &Vec<pb::VectorIndex>, other: &Vec<pb::VectorIndex>) -> (res: Vec<
    pb::VectorIndex,
>)
    ensures
        vectors_of(res@) == vectors_joined(vectors_of(own@), vectors_of(other@)),
{
    let mut res = copy_vectors(own);
    let ghost s = vectors_of(own@);
    let ghost o = vectors_of(other@);
    let mut i: usize = 0;
    assert(o.take(0) =~= Seq::empty());
    while i < other.len()
        invariant
            i <= other@.len(),
            s == vectors_of(own@),
            o == vectors_of(other@),
            vectors_of(res@) == vectors_joined(s, o.take(i as int)),
        decreases other@.len() - i,
    {
        assert(o.take(i + 1).drop_last() =~= o.take(i as int));
        assert(o.take(i + 1).last() == vector_of(other@[i as int]));
        merge_vector(&mut res, &other[i]);
        raise_vector(&mut res, &other[i]);
        i = i + 1;
    }
    assert(o.take(i as int) =~= o);
    res
}

impl ShardData {
    /// The levels of a column family with more tables.
    pub(crate) fn merge_cf(
        &self,
        more: &Vec<SsTable>,
        creates: &Vec<pb::TableCreate>,
        cf: usize,
    ) -> (res: ShardCf)
        requires
            self@.wf(),
            more@.len() == creates@.len(),
            all_placed(creates@),
            cf < 3,
            self@.cfs[cf as int].len() == cf_levels(cf as int),
        ensures
            res@ == levels_merged(self@.cfs[cf as int], more@, creates@, cf as int),
    {
        let mut builder = ShardCfBuilder::new(cf);
        let scf = &self.cfs[cf];
        let ghost levels = self@.cfs[cf as int];
        let mut l: usize = 0;
        while l < scf.levels.len()
            invariant
                l <= scf.levels@.len(),
                scf@ == levels,
                cf < 3,
                levels.len() == cf_levels(cf as int),
                builder@.len() == levels.len(),
                forall|k: int|
                    0 <= k < levels.len() ==> (#[trigger] builder@[k]) == if k < l {
                        levels[k].tables
                    } else {
                        Seq::<SsTable>::empty()
                    },
            decreases scf.levels@.len() - l,
        {
            let tables = &scf.levels[l].tables;
            let mut j: usize = 0;
            assert(tables@.take(0) =~= Seq::empty());
            while j < tables.len()
                invariant
                    l < scf.levels@.len(),
                    scf@ == levels,
                    levels.len() <= 3,
                    tables@ == levels[l as int].tables,
                    j <= tables@.len(),
                    builder@.len() == levels.len(),
                    forall|k: int|
                        0 <= k < levels.len() ==> (#[trigger] builder@[k]) == if k < l {
                            levels[k].tables
                        } else if k == l {
                            tables@.take(j as int)
                        } else {
                            Seq::<SsTable>::empty()
                        },
                decreases tables@.len() - j,
            {
                assert(tables@.take(j + 1) =~= tables@.take(j as int).push(tables@[j as int]));
                builder.add_table(tables[j].clone(), l + 1);
                j = j + 1;
            }
            assert(tables@.take(j as int) =~= tables@);
            l = l + 1;
        }
        let ghost all = more@;
        let ghost cr = creates@;
        let mut i: usize = 0;
        assert(cr.take(0) =~= Seq::empty());
        assert forall|k: int| 0 <= k < levels.len() implies (#[trigger] builder@[k])
            == levels[k].tables + tables_for(all, cr.take(0), cf as int, k + 1) by {
            assert(levels[k].tables + Seq::<SsTable>::empty() =~= levels[k].tables);
        }
        while i < creates.len()
            invariant
                i <= creates@.len(),
                all_placed(cr),
                more@.len() == cr.len(),
                cf < 3,
                levels.len() == cf_levels(cf as int),
                cr == creates@,
                all == more@,
                builder@.len() == levels.len(),
                forall|k: int|
                    0 <= k < levels.len() ==> (#[trigger] builder@[k]) == levels[k].tables
                        + tables_for(all, cr.take(i as int), cf as int, k + 1),
            decreases creates@.len() - i,
        {
            let c = &creates[i];
            let ghost before = builder@;
            proof {
                assert(cr.take(i + 1).drop_last() =~= cr.take(i as int));
                assert(cr.take(i + 1).last() == *c);
                let t = cr[i as int];
                assert(0 <= t.cf < 3 && 1 <= t.level <= cf_levels(t.cf as int));
            }
            if c.cf == cf as i32 {
                builder.add_table(more[i].clone(), c.level as usize);
            }
            proof {
                assert forall|k: int| 0 <= k < levels.len() implies (#[trigger] builder@[k])
                    == levels[k].tables + tables_for(all, cr.take(i + 1), cf as int, k + 1) by {
                    let rest = tables_for(all, cr.take(i as int), cf as int, k + 1);
                    assert(before[k] == levels[k].tables + rest);
                    assert(levels[k].tables + rest.push(all[i as int]) =~= (levels[k].tables
                        + rest).push(all[i as int]));
                }
            }
            i = i + 1;
        }
        assert(cr.take(i as int) =~= cr);
        let res = builder.build();
        assert(res@ =~= levels_merged(levels, more@, creates@, cf as int));
        res
    }

    /// The columnar files of the level with more.
    pub(crate) fn columnar_level_with(
        &self,
        more: &Vec<ColumnarFile>,
        creates: &Vec<pb::ColumnarCreate>,
        level: usize,
    ) -> (res: Vec<ColumnarFile>)
        requires
            level < self@.col_levels.levels.len(),
            more@.len() == creates@.len(),
        ensures
            res@ == self@.col_levels.levels[level as int] + files_for(
                more@,
                creates@,
                level as int,
            ),
    {
        let mut files = copy_columnar_files(&self.col_levels.levels[level]);
        let ghost own = self@.col_levels.levels[level as int];
        let ghost cr = creates@;
        let ghost all = more@;
        let mut i: usize = 0;
        assert(cr.take(0) =~= Seq::empty());
        assert(files@ =~= own + files_for(all, cr.take(0), level as int));
        while i < creates.len()
            invariant
                i <= creates@.len(),
                cr == creates@,
                all == more@,
                all.len() == cr.len(),
                files@ == own + files_for(all, cr.take(i as int), level as int),
            decreases creates@.len() - i,
        {
            proof {
                assert(cr.take(i + 1).drop_last() =~= cr.take(i as int));
                let rest = files_for(all, cr.take(i as int), level as int);
                assert(own + rest.push(all[i as int]) =~= (own + rest).push(all[i as int]));
            }
            if creates[i].level as usize == level {
                files.push(more[i].clone());
            }
            i = i + 1;
        }
        assert(cr.take(i as int) =~= cr);
        files
    }

    /// The columnar files of the level with those of the source, of the listed
    /// tables.
    fn merge_columnar_level(&self, source: &MergeSource, level: usize, ids: &Vec<i64>) -> (res: Vec<
        ColumnarFile,
    >)
        requires
            level < self@.col_levels.levels.len(),
            source.wf(),
        ensures
            res@ == (self@.col_levels.levels[level as int] + files_for(
                source.col_files@,
                source.snapshot.columnar_creates@,
                level as int,
            )).filter(|f: ColumnarFile| any_between(ids@, f.table_ids.min, f.table_ids.max)),
    {
        let files = self.columnar_level_with(
            &source.col_files,
            &source.snapshot.columnar_creates,
            level,
        );
        let keep = |f: &ColumnarFile| -> (r: bool)
            ensures
                r == any_between(ids@, f.table_ids.min, f.table_ids.max),
            {
                has_between(ids, f.table_ids.min, f.table_ids.max)
            };
        retain_vec(
            files,
            keep,
            Ghost(|f: ColumnarFile| any_between(ids@, f.table_ids.min, f.table_ids.max)),
        )
    }

    fn merge_columnar(&self, source: &MergeSource, ids: &Vec<i64>) -> (res: ColumnarLevels)
        requires
            source.wf(),
        ensures
            res@ == columnar_of_tables(
                Columnar {
                    levels: Seq::new(
                        self@.col_levels.levels.len(),
                        |i: int|
                            self@.col_levels.levels[i] + files_for(
                                source.col_files@,
                                source.snapshot.columnar_creates@,
                                i,
                            ),
                    ),
                    unconverted_l0s: self@.col_levels.unconverted_l0s,
                    l2_snap_version: self@.col_levels.l2_snap_version.spec_max(
                        SnapVersion { version: source.snapshot.columnar_l2_snap_version },
                    ),
                },
                ids@,
            ),
    {
        let mut levels: Vec<Vec<ColumnarFile>> = Vec::new();
        let mut i: usize = 0;
        while i < self.col_levels.levels.len()
            invariant
                i <= self.col_levels.levels@.len(),
                source.wf(),
                levels@.len() == i,
                forall|j: int|
                    0 <= j < i ==> (#[trigger] levels@[j])@ == (self@.col_levels.levels[j]
                        + files_for(
                        source.col_files@,
                        source.snapshot.columnar_creates@,
                        j,
                    )).filter(
                        |f: ColumnarFile| any_between(ids@, f.table_ids.min, f.table_ids.max),
                    ),
            decreases self.col_levels.levels@.len() - i,
        {
            levels.push(self.merge_columnar_level(source, i, ids));
            i = i + 1;
        }
        let unconverted_l0s = if ids.len() == 0 {
            Vec::new()
        } else {
            copy_l0s(&self.col_levels.unconverted_l0s)
        };
        let l2_snap_version = self.col_levels.l2_snap_version.higher(
            SnapVersion { version: source.snapshot.columnar_l2_snap_version },
        );
        let res = ColumnarLevels { levels, unconverted_l0s, l2_snap_version };
        assert(res@ =~= columnar_of_tables(
            Columnar {
                levels: Seq::new(
                    self@.col_levels.levels.len(),
                    |i: int|
                        self@.col_levels.levels[i] + files_for(
                            source.col_files@,
                            source.snapshot.columnar_creates@,
                            i,
                        ),
                ),
                unconverted_l0s: self@.col_levels.unconverted_l0s,
                l2_snap_version: self@.col_levels.l2_snap_version.spec_max(
                    SnapVersion { version: source.snapshot.columnar_l2_snap_version },
                ),
            },
            ids@,
        ));
        res
    }

    /// The data of both shards in one. Nothing is said of the order of the columnar files
    /// of a level.
    pub fn merge(
        &self,
        source: &MergeSource,
        range: ShardRange,
        inner_key_off: usize,
        columnar_table_ids: &Vec<i64>,
    ) -> (res: ShardData)
        requires
            self@.wf(),
            source.wf(),
            forall|c: int| 0 <= c < 3 ==> (#[trigger] self@.cfs[c]).len() == cf_levels(c),
            self@.update_counter < u64::MAX,
            source.snapshot.base_version + source.snapshot.data_sequence <= u64::MAX,
        ensures
            res@.reorders_columns(
                self@.merged(*source, range@, inner_key_off, columnar_table_ids@),
            ),
    {
        let mut l0s = copy_l0s(&self.l0_tbls);
        let ghost own = l0s@;
        l0s.extend_from_slice(source.l0_tbls.as_slice());
        assert(l0s@ =~= own + source.l0_tbls@);
        assert(self@.cfs[0].len() == cf_levels(0));
        assert(self@.cfs[1].len() == cf_levels(1));
        assert(self@.cfs[2].len() == cf_levels(2));
        let mut cfs: Vec<ShardCf> = Vec::new();
        cfs.push(self.merge_cf(&source.tables, &source.snapshot.table_creates, 0));
        cfs.push(self.merge_cf(&source.tables, &source.snapshot.table_creates, 1));
        cfs.push(self.merge_cf(&source.tables, &source.snapshot.table_creates, 2));
        let mut unloaded_tbls = source.unloaded_tbls.clone();
        add_files(&mut unloaded_tbls, &self.unloaded_tbls);
        let mut schema_version = self.schema_version;
        let mut restore_version = self.restore_version;
        let mut schema_file: Option<SchemaFile> = match &self.schema_file {
            Some(s) => Some(s.copy()),
            None => None,
        };
        if self.schema_file.is_none() {
            if let Some(s) = &source.schema_file {
                schema_version = s.version;
                restore_version = s.restore_version;
                schema_file = Some(s.copy());
            }
        }
        let mut vector_indexes = join_vectors(
            &self.vector_indexes,
            &source.snapshot.vector_indexes,
        );
        retain_vectors(&mut vector_indexes, columnar_table_ids);
        let persisted_version = self.persisted_version.higher(
            SnapVersion::new(source.snapshot.base_version, source.snapshot.data_sequence),
        );
        let res = ShardData {
            range,
            inner_key_off,
            mem_tbls: copy_mems(&self.mem_tbls),
            lock_txn_files: copy_txn_files(&self.lock_txn_files),
            l0_tbls: sort_l0s(&l0s),
            blob_tbls: merge_blobs(&self.blob_tbls, &source.blob_tbls),
            cfs,
            unloaded_tbls,
            update_counter: self.update_counter + 1,
            schema_version,
            restore_version,
            schema_file,
            col_levels: self.merge_columnar(source, columnar_table_ids),
            vector_indexes,
            columnar_table_ids: copy_i64s(columnar_table_ids),
            fts_l0_files: copy_fts_files(&self.fts_l0_files),
            fts_l1_files: copy_fts_files(&self.fts_l1_files),
            fts_l2_files: copy_fts_files(&self.fts_l2_files),
            persisted_version,
        };
        assert(res@ =~= self@.merged(*source, range@, inner_key_off, columnar_table_ids@));
        res
    }

    /// A copy.
    pub fn copy(&self) -> (res: ShardData)
        ensures
            res@ == self@,
    {
        let blob_tbls = self.blob_tbls.clone();
        assert(blob_tbls@ =~= self.blob_tbls@);
        let mut cfs: Vec<ShardCf> = Vec::new();
        let mut i: usize = 0;
        while i < self.cfs.len()
            invariant
                i <= self.cfs@.len(),
                cfs@.len() == i,
                forall|j: int| 0 <= j < i ==> (#[trigger] cfs@[j])@ == self.cfs@[j]@,
            decreases self.cfs@.len() - i,
        {
            cfs.push(self.cfs[i].copy());
            i = i + 1;
        }
        let schema_file = match &self.schema_file {
            Some(s) => Some(s.copy()),
            None => None,
        };
        let res = ShardData {
            range: self.range.clone(),
            inner_key_off: self.inner_key_off,
            mem_tbls: copy_mems(&self.mem_tbls),
            lock_txn_files: copy_txn_files(&self.lock_txn_files),
            l0_tbls: copy_l0s(&self.l0_tbls),
            blob_tbls,
            cfs,
            unloaded_tbls: self.unloaded_tbls.clone(),
            update_counter: self.update_counter,
            schema_version: self.schema_version,
            restore_version: self.restore_version,
            schema_file,
            col_levels: self.col_levels.copy(),
            vector_indexes: copy_vectors(&self.vector_indexes),
            columnar_table_ids: copy_i64s(&self.columnar_table_ids),
            fts_l0_files: copy_fts_files(&self.fts_l0_files),
            fts_l1_files: copy_fts_files(&self.fts_l1_files),
            fts_l2_files: copy_fts_files(&self.fts_l2_files),
            persisted_version: self.persisted_version,
        };
        assert(res@ =~= self@);
        res
    }
}

/// A copy of the memory tables.
pub fn copy_mems(v: &Vec<MemTable>) -> (res: Vec<MemTable>)
    ensures
        Seq::new(res@.len(), |i: int| res@[i]@) == Seq::new(v@.len(), |i: int| v@[i]@),
{
    let mut res: Vec<MemTable> = Vec::new();
    let mut i: usize = 0;
    while i < v.len()
        invariant
            i <= v@.len(),
            res@.len() == i,
            forall|j: int| 0 <= j < i ==> (#[trigger] res@[j])@ == v@[j]@,
        decreases v@.len() - i,
    {
        res.push(v[i].copy());
        i = i + 1;
    }
    assert(Seq::new(res@.len(), |i: int| res@[i]@) =~= Seq::new(v@.len(), |i: int| v@[i]@));
    res
}

/// What properties ask for.
pub open spec fn pending_of_map(
    m: Map<Seq<char>, Seq<u8>>,
    keyspace_id: u32,
    schedule_at: u64,
    class: StorageClassSpec,
) -> Pending {
    let base = Pending::none(keyspace_id);
    Pending {
        deletion: if m.contains_key(DEL_PREFIXES_KEY@) {
            deletion_of(m[DEL_PREFIXES_KEY@], keyspace_id, schedule_at)
        } else {
            base.deletion
        },
        truncate_ts: None,
        trim_over_bound: m.contains_key(TRIM_OVER_BOUND@) && m[TRIM_OVER_BOUND@].len() > 0,
        major: if m.contains_key(MANUAL_MAJOR_COMPACTION@) {
            MajorCompactionType::of(m[MANUAL_MAJOR_COMPACTION@])
        } else {
            MajorCompactionType::Disable
        },
        storage_class: if m.contains_key(STORAGE_CLASS_KEY@) {
            class
        } else {
            base.storage_class
        },
    }
}

/// The prefixes to be deleted are well formed, if there are any.
pub open spec fn deletions_ok(m: Map<Seq<char>, Seq<u8>>) -> bool {
    m.contains_key(DEL_PREFIXES_KEY@) ==> decoded(m[DEL_PREFIXES_KEY@]) is Some
}

fn pending_from_map(
    props: &Properties,
    keyspace_id: u32,
    schedule_at: u64,
    class: StorageClassSpec,
) -> (res: ShardPendingOperations)
    requires
        deletions_ok(props@),
    ensures
        res@ == pending_of_map(props@, keyspace_id, schedule_at, class),
{
    let mut res = ShardPendingOperations::new(keyspace_id);
    if let Some(val) = props.get(DEL_PREFIXES_KEY) {
        let mut d = DeletePrefixes::unmarshal(&val, keyspace_id);
        d.schedule(schedule_at);
        assert(d@ =~= deletion_of(content(val), keyspace_id, schedule_at));
        res.del_prefixes = d;
    }
    if let Some(val) = props.get(TRIM_OVER_BOUND) {
        let v: &[u8] = &val;
        res.trim_over_bound = v.len() > 0;
    }
    if let Some(val) = props.get(MANUAL_MAJOR_COMPACTION) {
        res.manual_major_compaction = MajorCompactionType::from_value(&val);
    }
    if props.get(STORAGE_CLASS_KEY).is_some() {
        res.storage_class_spec = class;
    }
    res
}

/// The higher of the recorded timestamp and that of the memory tables.
pub open spec fn max_ts_with(max_ts: u64, mems: Seq<Mem>) -> u64 {
    if max_ts >= mem_max_ts(mems) {
        max_ts
    } else {
        mem_max_ts(mems)
    }
}

/// `new` is the shard under its next version: what it consists of is kept, and
/// what it is asked to do is read from its properties again.
pub open spec fn is_next_version(old_shard: Shard, sequence: u64, schedule_at: u64, new: Shard) -> bool {
    &&& new.engine_id == old_shard.engine_id
    &&& new.id == old_shard.id
    &&& new.ver == old_shard.ver + 1
    &&& new.range@ == old_shard.range@
    &&& new.parent_id == 0
    &&& new.data@ == old_shard.data@
    &&& new.active == old_shard.active
    &&& new.properties@ == old_shard.properties@
    &&& new.pending_ops@ == pending_of_map(
        old_shard.properties@,
        old_shard.range@.keyspace_id,
        schedule_at,
        old_shard.pending_ops@.storage_class,
    )
    &&& !new.initial_flushed
    &&& new.base_version == old_shard.base_version
    &&& new.estimated_size == old_shard.estimated_size
    &&& new.estimated_entries == old_shard.estimated_entries
    &&& new.estimated_kv_size == old_shard.estimated_kv_size
    &&& new.estimated_ia_kv_size == old_shard.estimated_ia_kv_size
    &&& new.estimated_columnar_size == 0
    &&& new.estimated_columnar_kv_size == 0
    &&& new.sst_max_ts == 0
    &&& new.max_ts == max_ts_with(old_shard.max_ts, old_shard.data@.mem_tbls)
    &&& new.gc_stats == no_gc_stats()
    &&& !new.compacting
    &&& new.compaction_priority is None
    &&& new.checked_schema_ver == 0
    &&& new.outdated_schema_ver == 0
    &&& new.meta_seq == sequence
    &&& new.write_sequence == sequence
    &&& value_of(old_shard.properties@, ENCRYPTION_KEY@, new.encryption_key)
}

/// `new` is the shard under its next version, ready to be merged into another: it is its
/// own parent, so that what is in memory is flushed first.
pub open spec fn is_prepared_merge(
    old_shard: Shard,
    sequence: u64,
    schedule_at: u64,
    new: Shard,
) -> bool {
    &&& new.parent_id == old_shard.id
    &&& is_next_version(old_shard, sequence, schedule_at, Shard { parent_id: 0, ..new })
}

/// `new` is the shard under its next version, after a merge was given up.
pub open spec fn is_rolled_back(
    old_shard: Shard,
    sequence: u64,
    schedule_at: u64,
    new: Shard,
) -> bool {
    &&& new.initial_flushed
    &&& is_next_version(old_shard, sequence, schedule_at, Shard { initial_flushed: false, ..new })
}

impl Shard {
    /// The shard under its next version.
    pub fn new_shard_version(&self, sequence: u64, schedule_at: u64) -> (res: Shard)
        requires
            self.ver < u64::MAX,
            deletions_ok(self.properties@),
        ensures
            is_next_version(*self, sequence, schedule_at, res),
    {
        Shard {
            engine_id: self.engine_id,
            id: self.id,
            ver: self.ver + 1,
            range: self.range.clone(),
            parent_id: 0,
            data: self.data.copy(),
            active: self.active,
            properties: self.properties.clone(),
            pending_ops: pending_from_map(
                &self.properties,
                self.range.keyspace_id,
                schedule_at,
                self.pending_ops.storage_class_spec,
            ),
            compacting: false,
            initial_flushed: false,
            base_version: self.base_version,
            estimated_size: self.estimated_size,
            estimated_entries: self.estimated_entries,
            estimated_kv_size: self.estimated_kv_size,
            estimated_ia_kv_size: self.estimated_ia_kv_size,
            estimated_columnar_size: 0,
            estimated_columnar_kv_size: 0,
            sst_max_ts: 0,
            max_ts: self.get_max_ts(),
            gc_stats: GcStats {
                lv2plus_max_ts: 0,
                lv2plus_tombs: 0,
                lv2plus_entries_write_cf: 0,
                lv1plus_min_lock_file_max_ts: 0,
                lv1_min_max_extra_ts: 0,
            },
            meta_seq: sequence,
            write_sequence: sequence,
            compaction_priority: None,
            encryption_key: self.properties.get(ENCRYPTION_KEY),
            checked_schema_ver: 0,
            outdated_schema_ver: 0,
        }
    }

    /// Prepares the shard for a merge. It is denied while a transaction file holds
    /// locks or a table of level 0 has no columnar file yet. What is in memory is
    /// flushed with the shard as its own parent.
    pub fn prepare_merge(&self, sequence: u64, schedule_at: u64) -> (res: Result<Shard, MergeDenied>)
        requires
            self.ver < u64::MAX,
            deletions_ok(self.properties@),
        ensures
            match res {
                Ok(new) => {
                    &&& self.data@.lock_txn_files.len() == 0
                    &&& self.data@.col_levels.unconverted_l0s.len() == 0
                    &&& is_prepared_merge(*self, sequence, schedule_at, new)
                },
                Err(MergeDenied::HasTxnFileLocks) => self.data@.lock_txn_files.len() > 0,
                Err(MergeDenied::HasUnconvertedL0s) => self.data@.lock_txn_files.len() == 0
                    && self.data@.col_levels.unconverted_l0s.len() > 0,
                Err(_) => false,
            },
    {
        if self.data.has_txn_file_locks() {
            return Err(MergeDenied::HasTxnFileLocks);
        }
        if self.data.has_unconverted_l0s() {
            return Err(MergeDenied::HasUnconvertedL0s);
        }
        let mut new_shard = self.new_shard_version(sequence, schedule_at);
        new_shard.parent_id = self.id;
        Ok(new_shard)
    }

    /// Gives a prepared merge up. Nothing was written meanwhile, so no first flush
    /// is needed.
    pub fn rollback_merge(&self, sequence: u64, schedule_at: u64) -> (res: Shard)
        requires
            self.ver < u64::MAX,
            deletions_ok(self.properties@),
        ensures
            is_rolled_back(*self, sequence, schedule_at, res),
    {
        let mut new_shard = self.new_shard_version(sequence, schedule_at);
        new_shard.initial_flushed = true;
        new_shard
    }
}

/// The properties of the target before the source is merged in.
pub open spec fn target_props(target: Shard, source: MergeSource) -> Map<Seq<char>, Seq<u8>> {
    let start = content(source.snapshot.outer_start);
    let base = if same_keyspace(start, target.range@.start) {
        target.properties@
    } else {
        target.properties@.remove(ENCRYPTION_KEY@)
    };
    if leaves(target.range@.start, start) {
        base.insert(DEL_PREFIXES_KEY@, Seq::empty()).insert(
            STORAGE_CLASS_KEY@,
            match opt_value(STORAGE_CLASS_KEY@, source.snapshot.properties) {
                Some(v) => content(v),
                None => Seq::empty(),
            },
        )
    } else {
        base
    }
}

/// What the target is asked to do before the source is merged in. `class` is what the
/// source's storage class says.
pub open spec fn target_pending(
    target: Shard,
    source: MergeSource,
    schedule_at: u64,
    class: StorageClassSpec,
) -> Pending {
    if leaves(target.range@.start, content(source.snapshot.outer_start)) {
        Pending {
            deletion: deletion_set(Seq::empty(), target.range@.keyspace_id, schedule_at),
            storage_class: class,
            ..target.pending_ops@
        }
    } else {
        target.pending_ops@
    }
}

/// The prefixes of both that are to be deleted, if either has any.
pub open spec fn merged_deletion(target: Shard, source: MergeSource) -> Option<Seq<Seq<u8>>> {
    let own = target_props(target, source);
    let other = opt_value(DEL_PREFIXES_KEY@, source.snapshot.properties);
    if leaves(content(source.snapshot.outer_start), target.range@.start) || (other is None
        && !own.contains_key(DEL_PREFIXES_KEY@)) {
        None
    } else {
        Some(
            merge_all(
                property_prefixes(other),
                if own.contains_key(DEL_PREFIXES_KEY@) {
                    decoded(own[DEL_PREFIXES_KEY@])->0
                } else {
                    Seq::empty()
                },
            ),
        )
    }
}

/// The lower of two keys.
pub open spec fn lower_key(a: Seq<u8>, b: Seq<u8>) -> Seq<u8> {
    if lex_lt(b, a) {
        b
    } else {
        a
    }
}

/// The higher of two keys.
pub open spec fn higher_key(a: Seq<u8>, b: Seq<u8>) -> Seq<u8> {
    if lex_lt(a, b) {
        b
    } else {
        a
    }
}

/// The range of both shards.
pub open spec fn merged_range(target: Shard, source: MergeSource) -> Range {
    Range {
        start: lower_key(target.range@.start, content(source.snapshot.outer_start)),
        end: higher_key(target.range@.end, content(source.snapshot.outer_end)),
        keyspace_id: target.range@.keyspace_id,
    }
}

/// The data of the target before the source is merged in.
pub open spec fn target_data(target: Shard, source: MergeSource) -> Data {
    if leaves(target.range@.start, content(source.snapshot.outer_start)) {
        Data::empty(target.range@, target.data@.inner_key_off)
    } else {
        target.data@
    }
}

/// The merged data, with the columnar files of each level in one of their orders.
pub open spec fn data_after_merge(target: Shard, source: MergeSource, ids: Seq<i64>) -> Data {
    let start = content(source.snapshot.outer_start);
    let base = target_data(target, source);
    let range = merged_range(target, source);
    if leaves(start, target.range@.start) {
        Data { range, update_counter: (base.update_counter + 1) as u64, ..base }
    } else {
        let off = if leaves(target.range@.start, start) {
            source.snapshot.inner_key_off as usize
        } else {
            base.inner_key_off
        };
        base.merged(source, range, off, ids)
    }
}

/// The shards fit each other, and the numbers fit their types. A source whose data is
/// kept has no transaction file that holds locks.
pub open spec fn can_commit(target: Shard, source: MergeSource, sequence: u64) -> bool {
    &&& !leaves(content(source.snapshot.outer_start), target.range@.start)
        ==> source.lock_txn_files@.len() == 0
    &&& target.data@.wf()
    &&& forall|c: int| 0 <= c < 3 ==> (#[trigger] target.data@.cfs[c]).len() == cf_levels(c)
    &&& target.data@.update_counter < u64::MAX
    &&& source.wf()
    &&& opt_props_valid(source.snapshot.properties)
    &&& target.ver < u64::MAX
    &&& source.ver < u64::MAX
    &&& target.base_version + sequence <= u64::MAX
    &&& source.snapshot.base_version + source.sequence <= u64::MAX
    &&& source.snapshot.base_version + source.snapshot.data_sequence <= u64::MAX
    &&& deletions_ok(target.properties@)
    &&& property_decodes(opt_value(DEL_PREFIXES_KEY@, source.snapshot.properties))
    &&& target.properties@.contains_key(DEL_PREFIXES_KEY@) ==> prefixes_at_least(
        decoded(target.properties@[DEL_PREFIXES_KEY@])->0,
        prefix_len_of_id(target.range@.keyspace_id),
    )
}

/// `res` is the target with the source merged in.
pub open spec fn is_merged(
    target: Shard,
    source: MergeSource,
    sequence: u64,
    ids: Seq<i64>,
    schedule_at: u64,
    class: StorageClassSpec,
    res: Shard,
) -> bool {
    let own = target_props(target, source);
    let keyspace_id = target.range@.keyspace_id;
    let clears = leaves(target.range@.start, content(source.snapshot.outer_start));
    let pending = pending_of_map(
        own,
        keyspace_id,
        schedule_at,
        if clears {
            class
        } else {
            target.pending_ops@.storage_class
        },
    );
    let from_source = source.snapshot.base_version + source.sequence;
    let from_target = target.base_version + sequence;
    &&& res.engine_id == target.engine_id
    &&& res.id == target.id
    &&& res.ver == if target.ver >= source.ver {
        target.ver + 1
    } else {
        source.ver + 1
    }
    &&& res.range@ == merged_range(target, source)
    &&& res.parent_id == target.id
    &&& res.active == target.active
    &&& !res.initial_flushed
    &&& res.base_version == if from_source >= from_target {
        from_source - sequence
    } else {
        from_target - sequence
    }
    &&& res.meta_seq == sequence
    &&& res.write_sequence == sequence
    &&& value_of(own, ENCRYPTION_KEY@, res.encryption_key)
    &&& res.estimated_size == target.estimated_size
    &&& res.estimated_entries == target.estimated_entries
    &&& res.estimated_kv_size == target.estimated_kv_size
    &&& res.estimated_ia_kv_size == target.estimated_ia_kv_size
    &&& res.estimated_columnar_size == 0
    &&& res.estimated_columnar_kv_size == 0
    &&& res.sst_max_ts == 0
    &&& res.max_ts == max_ts_with(target.max_ts, target_data(target, source).mem_tbls)
    &&& res.gc_stats == no_gc_stats()
    &&& !res.compacting
    &&& res.compaction_priority is None
    &&& res.checked_schema_ver == 0
    &&& res.outdated_schema_ver == 0
    &&& res.properties@ == match merged_deletion(target, source) {
        Some(d) => own.insert(DEL_PREFIXES_KEY@, encoded(d)),
        None => own,
    }
    &&& res.pending_ops@ == match merged_deletion(target, source) {
        Some(d) => Pending {
            deletion: deletion_set(encoded(d), keyspace_id, schedule_at),
            ..pending
        },
        None => pending,
    }
    &&& res.data@.reorders_columns(data_after_merge(target, source, ids))
}

impl Shard {
    /// Drops what may not be merged: the key of another keyspace, and all data and
    /// settings of a keyspace that is given up.
    fn clear_for_merge(
        &mut self,
        source: &MergeSource,
        clear_target: bool,
        schedule_at: u64,
        class: StorageClassSpec,
    )
        requires
            can_commit(*old(self), *source, 0),
            clear_target == leaves(
                old(self).range@.start,
                content(source.snapshot.outer_start),
            ),
        ensures
            final(self).properties@ == target_props(*old(self), *source),
            final(self).data@ == target_data(*old(self), *source),
            final(self).pending_ops@ == target_pending(*old(self), *source, schedule_at, class),
            *final(self) == (Shard {
                properties: final(self).properties,
                pending_ops: final(self).pending_ops,
                data: final(self).data,
                ..*old(self)
            }),
    {
        let ghost target = *self;
        let snap = &source.snapshot;
        if !is_belongs_to_same_keyspace(&snap.outer_start, &self.range.outer_start) {
            self.del_property(ENCRYPTION_KEY);
        }
        if clear_target {
            proof {
                lemma_keys_differ();
                lemma_asking_keys_differ();
                lemma_recovered_keys_differ();
            }
            let none: Vec<u8> = Vec::new();
            let empty = none.as_slice();
            assert(empty@ =~= Seq::<u8>::empty());
            self.set_property(DEL_PREFIXES_KEY, empty, schedule_at, class);
            match get_opt_property(STORAGE_CLASS_KEY, &snap.properties) {
                Some(v) => {
                    self.set_property(STORAGE_CLASS_KEY, &v, schedule_at, class);
                },
                None => {
                    self.set_property(STORAGE_CLASS_KEY, empty, schedule_at, class);
                },
            }
            self.data = ShardData::new_empty(self.range.clone(), self.data.inner_key_off);
        }
        assert(self.properties@ =~= target_props(target, *source));
        assert(self.pending_ops@ =~= target_pending(target, *source, schedule_at, class));
    }

    /// Merges the prefixes of the source that are to be deleted into those of the
    /// new shard.
    fn merge_source_deletions(
        &mut self,
        target: Ghost<Shard>,
        source: &MergeSource,
        schedule_at: u64,
    )
        requires
            can_commit(target@, *source, 0),
            old(self).properties@ == target_props(target@, *source),
            old(self).range@.keyspace_id == target@.range@.keyspace_id,
            !leaves(content(source.snapshot.outer_start), target@.range@.start),
        ensures
            final(self).properties@ == match merged_deletion(target@, *source) {
                Some(d) => old(self).properties@.insert(DEL_PREFIXES_KEY@, encoded(d)),
                None => old(self).properties@,
            },
            final(self).pending_ops@ == match merged_deletion(target@, *source) {
                Some(d) => Pending {
                    deletion: deletion_set(
                        encoded(d),
                        target@.range@.keyspace_id,
                        schedule_at,
                    ),
                    ..old(self).pending_ops@
                },
                None => old(self).pending_ops@,
            },
            *final(self) == (Shard {
                properties: final(self).properties,
                pending_ops: final(self).pending_ops,
                ..*old(self)
            }),
    {
        proof {
            lemma_keys_differ();
            lemma_asking_keys_differ();
            lemma_recovered_keys_differ();
        }
        let source_del_prefixes = get_opt_property(DEL_PREFIXES_KEY, &source.snapshot.properties);
        let own_del_prefixes = self.get_property(DEL_PREFIXES_KEY);
        proof {
            let own = self.properties@;
            if own.contains_key(DEL_PREFIXES_KEY@) {
                if leaves(target@.range@.start, content(source.snapshot.outer_start)) {
                    assert(own[DEL_PREFIXES_KEY@] =~= Seq::<u8>::empty());
                    assert(property_prefixes(own_del_prefixes) =~= Seq::empty());
                } else {
                    assert(own[DEL_PREFIXES_KEY@] == target@.properties@[DEL_PREFIXES_KEY@]);
                }
            }
            assert(property_decodes(own_del_prefixes));
        }
        if let Some(buf) = merge_del_prefixes_if_needed(
            source_del_prefixes,
            own_del_prefixes,
            self.range.keyspace_id,
        ) {
            proof {
                let a = property_prefixes(source_del_prefixes);
                let b = property_prefixes(own_del_prefixes);
                if source_del_prefixes is Some {
                    lemma_decoded_short(content(source_del_prefixes->0));
                }
                if own_del_prefixes is Some {
                    lemma_decoded_short(content(own_del_prefixes->0));
                }
                lemma_merge_all_short(a, b);
                law_marshal_roundtrip(merge_all(a, b));
                assert(merged_deletion(target@, *source) == Some(merge_all(a, b)));
            }
            let class = self.pending_ops.storage_class_spec;
            self.set_property(DEL_PREFIXES_KEY, buf.as_slice(), schedule_at, class);
        }
    }

    /// Merges the source into the shard. `columnar_table_ids` are the tables that
    /// are kept as columns in both, and `class` is what the source's storage class
    /// says.
    pub fn commit_merge(
        &mut self,
        source: &MergeSource,
        sequence: u64,
        columnar_table_ids: &Vec<i64>,
        schedule_at: u64,
        class: StorageClassSpec,
    ) -> (res: Shard)
        requires
            can_commit(*old(self), *source, sequence),
        ensures
            is_merged(
                *old(self),
                *source,
                sequence,
                columnar_table_ids@,
                schedule_at,
                class,
                res,
            ),
            final(self).properties@ == target_props(*old(self), *source),
            final(self).pending_ops@ == target_pending(*old(self), *source, schedule_at, class),
            final(self).data@ == target_data(*old(self), *source),
            *final(self) == (Shard {
                properties: final(self).properties,
                pending_ops: final(self).pending_ops,
                data: final(self).data,
                ..*old(self)
            }),
    {
        let ghost target = *self;
        let snap = &source.snapshot;
        let (clear_source, clear_target) = need_clear_region_data_on_merge(
            &snap.outer_start,
            &self.range.outer_start,
        );
        self.clear_for_merge(source, clear_target, schedule_at, class);
        proof {
            lemma_keys_differ();
            if clear_target {
                assert(self.properties@[DEL_PREFIXES_KEY@] =~= Seq::<u8>::empty());
            }
            assert(deletions_ok(self.properties@));
        }
        let mut new_shard = self.new_shard_version(sequence, schedule_at);
        if bytes_lt(&snap.outer_start, &new_shard.range.outer_start) {
            new_shard.range.outer_start = snap.outer_start.clone();
        }
        if bytes_lt(&new_shard.range.outer_end, &snap.outer_end) {
            new_shard.range.outer_end = snap.outer_end.clone();
        }
        assert(new_shard.range@ =~= merged_range(target, *source));
        new_shard.ver = if self.ver >= source.ver {
            self.ver + 1
        } else {
            source.ver + 1
        };
        let source_mem_tbl_version: u64 = snap.base_version + source.sequence;
        let target_mem_tbl_version: u64 = self.base_version + sequence;
        new_shard.base_version = if source_mem_tbl_version >= target_mem_tbl_version {
            source_mem_tbl_version - sequence
        } else {
            target_mem_tbl_version - sequence
        };
        new_shard.parent_id = self.id;
        if !clear_source {
            new_shard.merge_source_deletions(Ghost(target), source, schedule_at);
            let inner_key_off: usize = if clear_target {
                snap.inner_key_off as usize
            } else {
                self.data.inner_key_off
            };
            let range = new_shard.range.clone();
            proof {
                if clear_target {
                    lemma_empty_levels(target.range@, target.data@.inner_key_off);
                }
            }
            new_shard.data = self.data.merge(source, range, inner_key_off, columnar_table_ids);
        } else {
            new_shard.data.range = new_shard.range.clone();
            new_shard.data.update_counter = new_shard.data.update_counter + 1;
            assert(new_shard.data@ =~= data_after_merge(target, *source, columnar_table_ids@));
        }
        new_shard
    }
}

proof fn lemma_empty_levels(range: Range, off: usize)
    ensures
        Data::empty(range, off).wf(),
        forall|c: int| 0 <= c < 3 ==> (#[trigger] Data::empty(range, off).cfs[c]).len() == cf_levels(c),
{
    let d = Data::empty(range, off);
    assert(d.cfs[0].len() == 3);
    assert(d.cfs[1].len() == 2);
    assert(d.cfs[2].len() == 1);
}

/// What is written to a merged shard is newer than what either of the two had in
/// memory.
pub proof fn law_merged_shard_is_newest(
    target: Shard,
    source: MergeSource,
    sequence: u64,
    ids: Seq<i64>,
    schedule_at: u64,
    class: StorageClassSpec,
    res: Shard,
)
    requires
        can_commit(target, source, sequence),
        is_merged(target, source, sequence, ids, schedule_at, class, res),
    ensures
        res.base_version + res.write_sequence >= target.base_version + sequence,
        res.base_version + res.write_sequence >= source.snapshot.base_version + source.sequence,
        res.ver > target.ver,
        res.ver > source.ver,
{
}

} // verus!
