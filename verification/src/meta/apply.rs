//! Changes of a shard.
use vstd::prelude::*;

use crate::buf::content;
use crate::del_prefixes::{decoded, encoded, merge_one, DeletePrefixes};
use crate::file_meta::{FileMeta, FileType, SnapVersion, ALL_CFS};
use crate::files::{
    blob_entries, blob_entries_of, columnar_entries, columnar_entries_of, delete_files, dels_at,
    dels_of, files_where, id_dels, ids_where, insert_files, l0_entries, l0_entries_of, remove_ids,
    retain_files, table_dels, table_entries, table_entries_of, with_files, without_files,
    without_ids,
};
use crate::keyspace::prefix_len_of_id;
use crate::lists::{
    any_between, contains_i64, contains_u64, extend_i64s, has_between, lemma_concat_set, lemma_filter_set,
    lemma_push_set, retain_vec, sort_dedup,
    sorted_ids, IndexSet,
};
use crate::meta::{holds_shard, index_pairs, lemma_index_pairs_step, Meta, ShardMeta};
use crate::pb;
use crate::properties::{
    complemented, opt_props_valid, props_valid, set_all, set_opt, Properties, DEL_PREFIXES_KEY,
    MANUAL_MAJOR_COMPACTION, STORAGE_CLASS_KEY, TRIM_OVER_BOUND, TRIM_OVER_BOUND_DISABLE,
};
use crate::schema_meta::SchemaFileMeta;
use crate::text::str_eq;
use crate::vectors::{
    retain_vectors, update_vectors, vectors_of, vectors_of_tables, vectors_updated,
};

verus! {

broadcast use vstd::std_specs::hash::group_hash_axioms;

/// The higher of two numbers.
pub open spec fn higher(a: u64, b: u64) -> u64 {
    if a >= b {
        a
    } else {
        b
    }
}

/// The compaction only moves files to the next level.
pub open spec fn move_down(c: pb::Compaction) -> bool {
    &&& c.top_deletes@.len() > 0
    &&& c.top_deletes@.len() == c.table_creates@.len()
    &&& c.top_deletes@[0] == c.table_creates@[0].id
}

/// Whether the compaction only moves files to the next level.
pub fn is_move_down(comp: &pb::Compaction) -> (res: bool)
    ensures
        res == move_down(*comp),
{
    comp.top_deletes.len() > 0 && comp.top_deletes.len() == comp.table_creates.len()
        && comp.top_deletes[0] == comp.table_creates[0].id
}

/// The file is there, one level above and in the column family of the new one.
pub open spec fn can_move(files: Map<u64, FileMeta>, t: pb::TableCreate) -> bool {
    &&& files.contains_key(t.id)
    &&& files[t.id].level + 1 == t.level
    &&& files[t.id].cf == ALL_CFS || files[t.id].cf == t.cf as i8
}

/// A file at the place of the new one.
pub open spec fn moved(fm: FileMeta, t: pb::TableCreate) -> FileMeta {
    FileMeta {
        cf: t.cf as i8,
        level: t.level as u8,
        l0_size: 0,
        table_meta_off: t.meta_offset,
        ..fm
    }
}

/// The files, each of the list moved to its new place.
pub open spec fn files_moved(
    files: Map<u64, FileMeta>,
    s: Seq<pb::TableCreate>,
) -> Map<u64, FileMeta>
    decreases s.len(),
{
    if s.len() == 0 {
        files
    } else {
        let rest = files_moved(files, s.drop_last());
        rest.insert(s.last().id, moved(rest[s.last().id], s.last()))
    }
}

/// Each file of the list can be moved once those before it are.
pub open spec fn can_move_all(files: Map<u64, FileMeta>, s: Seq<pb::TableCreate>) -> bool {
    forall|i: int|
        0 <= i < s.len() ==> can_move(files_moved(files, s.take(i)), #[trigger] s[i])
}

/// The tables of a flush.
pub open spec fn flush_l0s(f: pb::Flush) -> Seq<pb::L0Create> {
    match f.l0_create {
        Some(l0) => seq![l0] + f.l0_creates@,
        None => f.l0_creates@,
    }
}

/// The ids of tables.
pub open spec fn l0_ids(s: Seq<pb::L0Create>) -> Seq<u64> {
    Seq::new(s.len(), |i: int| s[i].id)
}

/// The files after the tables of a change are replaced.
pub open spec fn files_changed(files: Map<u64, FileMeta>, tc: pb::TableChange) -> Map<u64, FileMeta> {
    with_files(
        without_files(
            with_files(
                without_files(files, dels_of(tc.table_deletes@), FileType::Sst),
                table_entries_of(tc.table_creates@),
            ),
            dels_of(tc.columnar_deletes@),
            FileType::Columnar,
        ),
        columnar_entries_of(tc.columnar_creates@),
    )
}

/// A set of files and, for each pair whose first is in it, the second; the first
/// `n` pairs in order.
pub open spec fn with_successors(ids: Set<u64>, pairs: Seq<u64>, n: nat) -> Set<u64>
    decreases n,
{
    if n == 0 {
        ids
    } else {
        let rest = with_successors(ids, pairs, (n - 1) as nat);
        if rest.contains(pairs[2 * n - 2]) {
            rest.insert(pairs[2 * n - 1])
        } else {
            rest
        }
    }
}

/// The ids of files that leave.
pub open spec fn del_ids(s: Seq<pb::TableDelete>) -> Seq<u64> {
    Seq::new(s.len(), |i: int| s[i].id)
}

/// A set of ids without those of a list.
pub open spec fn ids_without(ids: Set<u64>, gone: Seq<u64>) -> Set<u64> {
    ids.filter(|id: u64| !gone.contains(id))
}

/// The unconverted tables after the tables of a change are replaced: what
/// replaces one of them is one too.
pub open spec fn unconverted_changed(ids: Set<u64>, tc: pb::TableChange) -> Set<u64> {
    ids_without(
        with_successors(ids, tc.file_ids_map@, tc.file_ids_map@.len() / 2),
        del_ids(tc.table_deletes@),
    )
}

/// The prefixes that the properties say are to be deleted.
pub open spec fn deletions(props: Map<Seq<char>, Seq<u8>>) -> Seq<Seq<u8>> {
    if props.contains_key(DEL_PREFIXES_KEY@) {
        decoded(props[DEL_PREFIXES_KEY@])->0
    } else {
        Seq::empty()
    }
}

/// The prefixes to be deleted are well formed, if there are any.
pub open spec fn deletions_valid(props: Map<Seq<char>, Seq<u8>>) -> bool {
    props.contains_key(DEL_PREFIXES_KEY@) ==> decoded(props[DEL_PREFIXES_KEY@]) is Some
}

/// The full text files without those of the list.
pub open spec fn packed_without(
    s: Seq<pb::FtsPackedFileInfo>,
    gone: Seq<u64>,
) -> Seq<pb::FtsPackedFileInfo> {
    s.filter(|f: pb::FtsPackedFileInfo| !gone.contains(f.id))
}

/// The full text files without those of the list.
pub open spec fn dedicated_without(
    s: Seq<pb::FtsDedFileInfo>,
    gone: Seq<u64>,
) -> Seq<pb::FtsDedFileInfo> {
    s.filter(|f: pb::FtsDedFileInfo| !gone.contains(f.id))
}

/// The full text files that may hold keys of the listed tables.
pub open spec fn packed_of_tables(
    s: Seq<pb::FtsPackedFileInfo>,
    ids: Seq<i64>,
) -> Seq<pb::FtsPackedFileInfo> {
    s.filter(|f: pb::FtsPackedFileInfo| any_between(ids, f.table_ids.min, f.table_ids.max))
}

/// The full text files that may hold keys of the listed tables.
pub open spec fn dedicated_of_tables(
    s: Seq<pb::FtsDedFileInfo>,
    ids: Seq<i64>,
) -> Seq<pb::FtsDedFileInfo> {
    s.filter(|f: pb::FtsDedFileInfo| any_between(ids, f.table_ids.min, f.table_ids.max))
}

/// Tables of level 0 that are not in the list.
pub open spec fn other_l0s(files: Map<u64, FileMeta>, row_l0s: Seq<u64>) -> Set<u64> {
    files.dom().filter(
        |id: u64| files[id].level == 0 && files[id].file_type is Sst && !row_l0s.contains(id),
    )
}

/// Files that are no columnar files and nothing made from them.
pub open spec fn row_file(fm: FileMeta) -> bool {
    !(fm.file_type is Columnar || fm.file_type is Schema || fm.file_type is VectorIndex
        || fm.file_type is FtsPackedFile || fm.file_type is FtsDedicatedFile)
}

impl Meta {
    /// After a flush.
    pub open spec fn flushed(self, f: pb::Flush) -> Meta {
        let l0s = flush_l0s(f);
        Meta {
            props: set_all(self.props, f.properties),
            files: with_files(self.files, l0_entries_of(l0s)),
            unconverted_l0s: if self.schema.valid() && self.columnar_table_ids.len() > 0 {
                self.unconverted_l0s.union(l0_ids(l0s).to_set())
            } else {
                self.unconverted_l0s
            },
            data_sequence: higher(self.data_sequence, (f.version - self.base_version) as u64),
            max_ts: higher(self.max_ts, f.max_ts),
            ..self
        }
    }

    /// After the first flush, which brings the whole shard. The range, the locks
    /// and what is not among the new properties stay.
    pub open spec fn initially_flushed(self, cs: pb::ChangeSet) -> Meta {
        let new = Meta::of(self.engine_id, cs);
        Meta {
            range: self.range,
            props: complemented(new.props, self.props),
            locks: self.locks,
            data_sequence: higher(new.data_sequence, self.data_sequence),
            max_ts: higher(new.max_ts, self.max_ts),
            ..new
        }
    }

    /// After a compaction of two levels.
    pub open spec fn compacted(self, c: pb::Compaction) -> Meta {
        if move_down(c) {
            Meta { files: files_moved(self.files, c.table_creates@), ..self }
        } else {
            Meta {
                files: with_files(
                    with_files(
                        without_files(
                            without_files(
                                self.files,
                                dels_at(c.top_deletes@, c.level),
                                FileType::Sst,
                            ),
                            dels_at(c.bottom_deletes@, (c.level + 1) as u32),
                            FileType::Sst,
                        ),
                        table_entries_of(c.table_creates@),
                    ),
                    blob_entries_of(c.blob_tables@),
                ),
                ..self
            }
        }
    }

    /// After a compaction of all levels.
    pub open spec fn major_compacted(self, c: pb::MajorCompaction) -> Meta {
        Meta {
            files: with_files(
                without_files(
                    with_files(
                        without_files(
                            self.files,
                            dels_of(c.sstable_change.table_deletes@),
                            FileType::Sst,
                        ),
                        table_entries_of(c.sstable_change.table_creates@),
                    ),
                    dels_at(c.old_blob_tables@, 0),
                    FileType::Blob,
                ),
                blob_entries_of(c.new_blob_tables@),
            ),
            props: self.props.remove(MANUAL_MAJOR_COMPACTION@),
            ..self
        }
    }

    /// After tables are replaced.
    pub open spec fn changed(self, tc: pb::TableChange) -> Meta {
        Meta {
            files: files_changed(self.files, tc),
            unconverted_l0s: unconverted_changed(self.unconverted_l0s, tc),
            ..self
        }
    }

    /// After an optional change of full text search files.
    pub open spec fn fts_updated_opt(self, u: Option<pb::FtsUpdate>) -> Meta {
        match u {
            Some(u) => self.fts_updated(u),
            None => self,
        }
    }

    /// After the keys of deleted prefixes are gone: those prefixes are no longer
    /// to be deleted.
    pub open spec fn range_destroyed(self, cs: pb::ChangeSet) -> Meta {
        let next = self.changed(cs.destroy_range->0).fts_updated_opt(cs.fts_update);
        let done = decoded(content(cs.property_value))->0;
        if self.props.contains_key(DEL_PREFIXES_KEY@) {
            Meta {
                props: self.props.insert(
                    DEL_PREFIXES_KEY@,
                    encoded(deletions(self.props).filter(|p: Seq<u8>| !done.contains(p))),
                ),
                ..next
            }
        } else {
            next
        }
    }

    /// After the keys outside the shard are gone.
    pub open spec fn trimmed(self, cs: pb::ChangeSet) -> Meta {
        let next = self.changed(cs.trim_over_bound->0).fts_updated_opt(cs.fts_update);
        Meta { props: next.props.insert(TRIM_OVER_BOUND@, TRIM_OVER_BOUND_DISABLE@), ..next }
    }

    /// After files from outside came.
    pub open spec fn ingested(self, f: pb::IngestFiles) -> Meta {
        Meta {
            max_ts: higher(self.max_ts, f.max_ts),
            props: set_all(self.props, f.properties),
            files: with_files(
                with_files(
                    with_files(self.files, table_entries_of(f.table_creates@)),
                    l0_entries_of(f.l0_creates@),
                ),
                blob_entries_of(f.blob_creates@),
            ),
            columnar_table_ids: match f.table_id {
                Some(table_id) => self.columnar_table_ids.filter(|id: i64| id != table_id),
                None => self.columnar_table_ids,
            },
            ..self
        }
    }

    /// After a restore, which brings the whole shard. The version moves on, so
    /// that earlier changes are stale.
    pub open spec fn restored(self, cs: pb::ChangeSet) -> Meta {
        Meta {
            data_sequence: cs.sequence,
            ver: (cs.shard_ver + 1) as u64,
            ..Meta::of(self.engine_id, cs)
        }
    }

    /// Without full text search files.
    pub open spec fn fts_cleared(self) -> Meta {
        Meta {
            fts_indexes: Set::empty(),
            fts_l0_files: Seq::empty(),
            fts_l1_files: Seq::empty(),
            fts_l2_files: Seq::empty(),
            fts_l0_snap_version: SnapVersion { version: 0 },
            fts_pending_l0_ids: Seq::empty(),
            ..self
        }
    }

    /// With the full text search files of the listed tables only.
    pub open spec fn fts_of_tables(self, ids: Seq<i64>) -> Meta {
        Meta {
            fts_indexes: self.fts_indexes.filter(|x: (i64, i64)| ids.contains(x.0)),
            fts_l0_files: packed_of_tables(self.fts_l0_files, ids),
            fts_l1_files: packed_of_tables(self.fts_l1_files, ids),
            fts_l2_files: dedicated_of_tables(self.fts_l2_files, ids),
            fts_pending_l0_ids: self.fts_pending_l0_ids.filter(
                |id: u64|
                    self.files.contains_key(id) && any_between(
                        ids,
                        self.files[id].table_ids.min,
                        self.files[id].table_ids.max,
                    ),
            ),
            ..self
        }
    }

    /// After a compaction of columnar files.
    pub open spec fn columnar_compacted(self, c: pb::ColumnarCompaction) -> Meta {
        let files = without_ids(
            with_files(self.files, columnar_entries_of(c.columnar_change.columnar_creates@)),
            del_ids(c.columnar_change.columnar_deletes@),
        );
        let kept = ids_without(self.unconverted_l0s, c.row_l0s@);
        let unconverted = if self.columnar_table_ids.len() == 0 {
            kept.union(other_l0s(files, c.row_l0s@))
        } else {
            kept
        };
        let ids = sort_dedup(self.columnar_table_ids + c.columnar_table_ids@).filter(
            |id: i64| !c.columnar_table_ids_to_clear@.contains(id),
        );
        let base = Meta {
            columnar_l2_snap_version: if c.target_level == 2 {
                SnapVersion { version: c.snap_version }
            } else {
                self.columnar_l2_snap_version
            },
            files,
            props: if c.is_manual_major_compaction {
                self.props.remove(MANUAL_MAJOR_COMPACTION@)
            } else {
                self.props
            },
            ..self
        };
        if c.snap_version == 0 {
            Meta {
                columnar_table_ids: Seq::empty(),
                unconverted_l0s: Set::empty(),
                vector_indexes: Seq::empty(),
                schema: self.schema.cleared(self.schema.schema_restore_ver),
                ..base.fts_cleared()
            }
        } else {
            Meta {
                columnar_table_ids: ids,
                unconverted_l0s: if ids.len() == 0 {
                    Set::empty()
                } else {
                    unconverted
                },
                vector_indexes: vectors_of_tables(self.vector_indexes, ids),
                ..base.fts_of_tables(ids)
            }
        }
    }

    /// After a change of full text search files.
    pub open spec fn fts_updated(self, u: pb::FtsUpdate) -> Meta {
        let indexes = self.fts_indexes.difference(index_pairs(u.remove_tracked_indexes@)).union(
            index_pairs(u.add_tracked_indexes@),
        );
        let pending = if indexes == Set::<(i64, i64)>::empty() {
            Seq::empty()
        } else {
            self.fts_pending_l0_ids
        };
        if u.clear_all {
            self.fts_cleared()
        } else {
            Meta {
                fts_indexes: indexes,
                fts_l0_files: packed_without(
                    self.fts_l0_files + u.l0_add_files@,
                    u.l0_remove_files@,
                ),
                fts_l1_files: packed_without(
                    self.fts_l1_files + u.l1_add_files@,
                    u.l1_remove_files@,
                ),
                fts_l2_files: dedicated_without(
                    self.fts_l2_files + u.l2_add_files@,
                    u.l2_remove_files@,
                ),
                fts_l0_snap_version: if u.set_snap_version > 0 {
                    SnapVersion { version: u.set_snap_version }
                } else {
                    self.fts_l0_snap_version
                },
                fts_pending_l0_ids: pending.filter(
                    |id: u64| !u.pending_columnar_l0_remove_files@.contains(id),
                ),
                ..self
            }
        }
    }

    /// After all columnar files are gone.
    pub open spec fn columnar_cleared(self, restore_version: Option<u64>) -> Meta {
        Meta {
            schema: self.schema.cleared(
                match restore_version {
                    Some(v) => v,
                    None => self.schema.schema_restore_ver,
                },
            ),
            columnar_table_ids: Seq::empty(),
            columnar_l2_snap_version: SnapVersion { version: 0 },
            unconverted_l0s: Set::empty(),
            vector_indexes: Seq::empty(),
            files: files_where(self.files, |fm: FileMeta| row_file(fm)),
            ..self.fts_cleared()
        }
    }

    /// After what differs from an earlier snapshot is taken over.
    pub open spec fn diffed(self, ver: u64, snap: pb::Snapshot) -> Meta {
        Meta {
            ver,
            props: set_opt(self.props, snap.properties),
            data_sequence: if snap.data_sequence > 0 {
                snap.data_sequence
            } else {
                self.data_sequence
            },
            schema: match snap.schema_meta {
                Some(sm) => SchemaFileMeta::of(sm),
                None => self.schema,
            },
            ..self
        }
    }

    /// After a property is set. Prefixes to be deleted are merged; a storage class
    /// that says nothing is removed.
    pub open spec fn property_set(self, cs: pb::ChangeSet) -> Meta {
        let key = cs.property_key@;
        let value = content(cs.property_value);
        Meta {
            props: if cs.property_merge {
                self.props.insert(
                    DEL_PREFIXES_KEY@,
                    encoded(merge_one(deletions(self.props), value)),
                )
            } else if key == STORAGE_CLASS_KEY@ && !cs.storage_class.specified {
                self.props.remove(key)
            } else {
                self.props.insert(key, value)
            },
            ..self
        }
    }

    /// After a change set: its first part, in this order, is applied.
    pub open spec fn applied(self, cs: pb::ChangeSet) -> Meta {
        let now = Meta { seq: cs.sequence, ..self };
        if cs.initial_flush is Some {
            now.initially_flushed(cs)
        } else if cs.flush is Some {
            now.flushed(cs.flush->0)
        } else if cs.compaction is Some {
            now.compacted(cs.compaction->0)
        } else if cs.destroy_range is Some {
            now.range_destroyed(cs)
        } else if cs.truncate_ts is Some {
            now.changed(cs.truncate_ts->0).fts_updated_opt(cs.fts_update)
        } else if cs.trim_over_bound is Some {
            now.trimmed(cs)
        } else if cs.ingest_files is Some {
            now.ingested(cs.ingest_files->0)
        } else if cs.restore_shard is Some {
            now.restored(cs)
        } else if cs.major_compaction is Some {
            now.major_compacted(cs.major_compaction->0)
        } else if cs.update_schema_meta is Some {
            let sm = cs.update_schema_meta->0;
            Meta {
                schema: SchemaFileMeta {
                    schema_file_id: sm.file_id,
                    schema_file_ver: sm.version,
                    ..self.schema
                },
                ..now
            }
        } else if cs.columnar_compaction is Some {
            now.columnar_compacted(cs.columnar_compaction->0)
        } else if cs.update_vector_index is Some {
            Meta {
                vector_indexes: vectors_updated(self.vector_indexes, cs.update_vector_index->0),
                ..now
            }
        } else if cs.fts_update is Some {
            now.fts_updated(cs.fts_update->0)
        } else if cs.clear_columnar || cs.clear_columnar_with_restore_version is Some {
            now.columnar_cleared(cs.clear_columnar_with_restore_version)
        } else if cs.snapshot_diff is Some {
            now.diffed(cs.shard_ver, cs.snapshot_diff->0)
        } else {
            now.property_set(cs)
        }
    }

    /// The change set fits the shard.
    pub open spec fn can_apply(self, cs: pb::ChangeSet) -> bool {
        if cs.initial_flush is Some {
            holds_shard(cs)
        } else if cs.flush is Some {
            props_valid((cs.flush->0).properties) && (cs.flush->0).version >= self.base_version
        } else if cs.compaction is Some {
            let c = cs.compaction->0;
            if move_down(c) {
                can_move_all(self.files, c.table_creates@)
            } else {
                c.level < u32::MAX
            }
        } else if cs.destroy_range is Some {
            &&& cs.property_key@ == DEL_PREFIXES_KEY@
            &&& deletions_valid(self.props)
            &&& self.props.contains_key(DEL_PREFIXES_KEY@) ==> decoded(
                content(cs.property_value),
            ) is Some
        } else if cs.truncate_ts is Some || cs.trim_over_bound is Some {
            true
        } else if cs.ingest_files is Some {
            props_valid((cs.ingest_files->0).properties)
        } else if cs.restore_shard is Some {
            &&& holds_shard(cs)
            &&& self.range.start == content((cs.restore_shard->0).outer_start)
            &&& self.range.end == content((cs.restore_shard->0).outer_end)
            &&& cs.shard_ver < u64::MAX
        } else if cs.major_compaction is Some || cs.update_schema_meta is Some
            || cs.columnar_compaction is Some || cs.update_vector_index is Some
            || cs.fts_update is Some || cs.clear_columnar
            || cs.clear_columnar_with_restore_version is Some {
            true
        } else if cs.snapshot_diff is Some {
            opt_props_valid((cs.snapshot_diff->0).properties)
        } else {
            &&& cs.property_key@.len() > 0
            &&& cs.property_merge ==> {
                &&& cs.property_key@ == DEL_PREFIXES_KEY@
                &&& deletions_valid(self.props)
                &&& content(cs.property_value).len() >= prefix_len_of_id(self.range.keyspace_id)
            }
        }
    }
}

/// Removes the listed ids.
pub fn remove_u64s(v: Vec<u64>, gone: &Vec<u64>) -> (res: Vec<u64>)
    ensures
        res@ == v@.filter(|id: u64| !gone@.contains(id)),
{
    let ghost p = |id: u64| !gone@.contains(id);
    let keep = |id: &u64| -> (b: bool)
        ensures
            b == !gone@.contains(*id),
        {
            !contains_u64(gone, *id)
        };
    retain_vec(v, keep, Ghost(p))
}

/// Removes the listed ids.
pub fn remove_i64s(v: Vec<i64>, gone: &Vec<i64>) -> (res: Vec<i64>)
    ensures
        res@ == v@.filter(|id: i64| !gone@.contains(id)),
{
    let ghost p = |id: i64| !gone@.contains(id);
    let keep = |id: &i64| -> (b: bool)
        ensures
            b == !gone@.contains(*id),
        {
            !contains_i64(gone, *id)
        };
    retain_vec(v, keep, Ghost(p))
}

/// The ids of files that leave.
pub fn ids_of_dels(v: &Vec<pb::TableDelete>) -> (res: Vec<u64>)
    ensures
        res@ == del_ids(v@),
{
    let mut res: Vec<u64> = Vec::new();
    let mut i: usize = 0;
    while i < v.len()
        invariant
            i <= v@.len(),
            res@ =~= del_ids(v@.take(i as int)),
        decreases v@.len() - i,
    {
        res.push(v[i].id);
        i = i + 1;
    }
    assert(v@.take(i as int) =~= v@);
    res
}

fn max_u64(a: u64, b: u64) -> (res: u64)
    ensures
        res == higher(a, b),
{
    if a >= b {
        a
    } else {
        b
    }
}

fn without_packed(v: Vec<pb::FtsPackedFileInfo>, gone: &Vec<u64>) -> (res: Vec<
    pb::FtsPackedFileInfo,
>)
    ensures
        res@ == packed_without(v@, gone@),
{
    let ghost p = |f: pb::FtsPackedFileInfo| !gone@.contains(f.id);
    let keep = |f: &pb::FtsPackedFileInfo| -> (b: bool)
        ensures
            b == !gone@.contains(f.id),
        {
            !contains_u64(gone, f.id)
        };
    retain_vec(v, keep, Ghost(p))
}

fn without_dedicated(v: Vec<pb::FtsDedFileInfo>, gone: &Vec<u64>) -> (res: Vec<pb::FtsDedFileInfo>)
    ensures
        res@ == dedicated_without(v@, gone@),
{
    let ghost p = |f: pb::FtsDedFileInfo| !gone@.contains(f.id);
    let keep = |f: &pb::FtsDedFileInfo| -> (b: bool)
        ensures
            b == !gone@.contains(f.id),
        {
            !contains_u64(gone, f.id)
        };
    retain_vec(v, keep, Ghost(p))
}

fn retain_packed(v: Vec<pb::FtsPackedFileInfo>, ids: &Vec<i64>) -> (res: Vec<
    pb::FtsPackedFileInfo,
>)
    ensures
        res@ == packed_of_tables(v@, ids@),
{
    let ghost p = |f: pb::FtsPackedFileInfo| any_between(ids@, f.table_ids.min, f.table_ids.max);
    let keep = |f: &pb::FtsPackedFileInfo| -> (b: bool)
        ensures
            b == any_between(ids@, f.table_ids.min, f.table_ids.max),
        {
            has_between(ids, f.table_ids.min, f.table_ids.max)
        };
    retain_vec(v, keep, Ghost(p))
}

fn retain_dedicated(v: Vec<pb::FtsDedFileInfo>, ids: &Vec<i64>) -> (res: Vec<pb::FtsDedFileInfo>)
    ensures
        res@ == dedicated_of_tables(v@, ids@),
{
    let ghost p = |f: pb::FtsDedFileInfo| any_between(ids@, f.table_ids.min, f.table_ids.max);
    let keep = |f: &pb::FtsDedFileInfo| -> (b: bool)
        ensures
            b == any_between(ids@, f.table_ids.min, f.table_ids.max),
        {
            has_between(ids, f.table_ids.min, f.table_ids.max)
        };
    retain_vec(v, keep, Ghost(p))
}

impl ShardMeta {
    /// Moves a file to the next level.
    fn move_down_file(&mut self, t: &pb::TableCreate)
        requires
            can_move(old(self)@.files, *t),
        ensures
            final(self)@ == (Meta {
                files: old(self)@.files.insert(t.id, moved(old(self)@.files[t.id], *t)),
                ..old(self)@
            }),
    {
        let mut fm = self.files.get(&t.id).unwrap().clone();
        fm.cf = t.cf as i8;
        fm.level = t.level as u8;
        fm.l0_size = 0;
        fm.table_meta_off = t.meta_offset;
        self.files.insert(t.id, fm);
    }

    /// Applies a compaction of two levels.
    pub fn apply_compaction(&mut self, comp: &pb::Compaction)
        requires
            move_down(*comp) ==> can_move_all(old(self)@.files, comp.table_creates@),
            !move_down(*comp) ==> comp.level < u32::MAX,
        ensures
            final(self)@ == old(self)@.compacted(*comp),
    {
        let ghost before = self@;
        if is_move_down(comp) {
            let mut i: usize = 0;
            let ghost s = comp.table_creates@;
            assert(s.take(0) =~= Seq::empty());
            while i < comp.table_creates.len()
                invariant
                    s == comp.table_creates@,
                    i <= s.len(),
                    can_move_all(before.files, s),
                    self@ == (Meta { files: files_moved(before.files, s.take(i as int)), ..before }),
                decreases s.len() - i,
            {
                assert(s.take(i + 1).drop_last() =~= s.take(i as int));
                assert(can_move(files_moved(before.files, s.take(i as int)), s[i as int]));
                self.move_down_file(&comp.table_creates[i]);
                i = i + 1;
            }
            assert(s.take(i as int) =~= s);
            return;
        }
        delete_files(&mut self.files, &id_dels(&comp.top_deletes, comp.level), FileType::Sst);
        delete_files(
            &mut self.files,
            &id_dels(&comp.bottom_deletes, comp.level + 1),
            FileType::Sst,
        );
        insert_files(&mut self.files, &table_entries(&comp.table_creates));
        insert_files(&mut self.files, &blob_entries(&comp.blob_tables));
    }

    /// Applies a compaction of all levels.
    fn apply_major_compaction(&mut self, comp: &pb::MajorCompaction)
        ensures
            final(self)@ == old(self)@.major_compacted(*comp),
    {
        delete_files(
            &mut self.files,
            &table_dels(&comp.sstable_change.table_deletes),
            FileType::Sst,
        );
        insert_files(&mut self.files, &table_entries(&comp.sstable_change.table_creates));
        delete_files(&mut self.files, &id_dels(&comp.old_blob_tables, 0), FileType::Blob);
        insert_files(&mut self.files, &blob_entries(&comp.new_blob_tables));
        self.properties.remove(MANUAL_MAJOR_COMPACTION);
    }

    /// Applies a flush.
    fn apply_flush(&mut self, flush: &pb::Flush)
        requires
            props_valid(flush.properties),
            flush.version >= old(self)@.base_version,
        ensures
            final(self)@ == old(self)@.flushed(*flush),
    {
        let ghost before = self@;
        self.properties.apply(&flush.properties);
        let mut l0s: Vec<pb::L0Create> = Vec::new();
        if let Some(l0) = &flush.l0_create {
            l0s.push(l0.clone());
        }
        l0s.extend_from_slice(flush.l0_creates.as_slice());
        assert(l0s@ =~= flush_l0s(*flush));
        insert_files(&mut self.files, &l0_entries(&l0s));
        if self.schema.is_valid() && self.columnar_table_ids.len() > 0 {
            let mut i: usize = 0;
            let ghost base = self.unconverted_l0s@;
            let ghost now = *self;
            while i < l0s.len()
                invariant
                    i <= l0s@.len(),
                    self.unconverted_l0s@ =~= base + l0_ids(l0s@.take(i as int)),
                    *self == (ShardMeta { unconverted_l0s: self.unconverted_l0s, ..now }),
                decreases l0s@.len() - i,
            {
                self.unconverted_l0s.push(l0s[i].id);
                i = i + 1;
            }
            proof {
                assert(l0s@.take(i as int) =~= l0s@);
                lemma_concat_set(base, l0_ids(l0s@));
            }
        }
        let new_data_seq: u64 = flush.version - self.base_version;
        if self.data_sequence < new_data_seq {
            self.data_sequence = new_data_seq;
        }
        self.max_ts = max_u64(self.max_ts, flush.max_ts);
        assert(self@ =~= before.flushed(*flush));
    }

    /// Applies the first flush.
    pub fn apply_initial_flush(&mut self, cs: &pb::ChangeSet)
        requires
            holds_shard(*cs),
        ensures
            final(self)@ == old(self)@.initially_flushed(*cs),
    {
        let mut new_meta = ShardMeta::new(self.engine_id, cs);
        let mut old_props = Properties::new();
        std::mem::swap(&mut old_props, &mut self.properties);
        new_meta.range = self.range.clone();
        new_meta.properties.complement_merge(old_props);
        new_meta.txn_file_locks = self.txn_file_locks.copy();
        new_meta.data_sequence = max_u64(new_meta.data_sequence, self.data_sequence);
        new_meta.max_ts = max_u64(new_meta.max_ts, self.max_ts);
        *self = new_meta;
    }

    /// Replaces tables and columnar files.
    fn apply_table_change(&mut self, tc: &pb::TableChange)
        ensures
            final(self)@ == (Meta { files: files_changed(old(self)@.files, *tc), ..old(self)@ }),
    {
        delete_files(&mut self.files, &table_dels(&tc.table_deletes), FileType::Sst);
        insert_files(&mut self.files, &table_entries(&tc.table_creates));
        delete_files(&mut self.files, &table_dels(&tc.columnar_deletes), FileType::Columnar);
        insert_files(&mut self.files, &columnar_entries(&tc.columnar_creates));
    }

    /// Replaces tables among those that have no columnar file yet.
    fn apply_table_change_to_unconverted_l0s(&mut self, tc: &pb::TableChange)
        ensures
            final(self)@ == (Meta {
                unconverted_l0s: unconverted_changed(old(self)@.unconverted_l0s, *tc),
                ..old(self)@
            }),
    {
        let ghost before = self@;
        let mut ids: Vec<u64> = Vec::new();
        std::mem::swap(&mut ids, &mut self.unconverted_l0s);
        let ghost start = ids@.to_set();
        let len: usize = tc.file_ids_map.len();
        let pairs: usize = len / 2;
        let mut i: usize = 0;
        while i < pairs
            invariant
                len == tc.file_ids_map@.len(),
                pairs == len / 2,
                i <= pairs,
                ids@.to_set() == with_successors(start, tc.file_ids_map@, i as nat),
            decreases pairs - i,
        {
            if contains_u64(&ids, tc.file_ids_map[2 * i]) && !contains_u64(
                &ids,
                tc.file_ids_map[2 * i + 1],
            ) {
                let ghost now = ids@;
                ids.push(tc.file_ids_map[2 * i + 1]);
                proof {
                    lemma_push_set(now, tc.file_ids_map@[2 * i + 1]);
                }
            }
            proof {
                let n = (i + 1) as nat;
                let rest = with_successors(start, tc.file_ids_map@, i as nat);
                assert(2 * n - 2 == 2 * i);
                if rest.contains(tc.file_ids_map@[2 * i + 1]) {
                    assert(rest.insert(tc.file_ids_map@[2 * i + 1]) =~= rest);
                }
            }
            i = i + 1;
        }
        let gone = ids_of_dels(&tc.table_deletes);
        proof {
            lemma_filter_set(ids@, |id: u64| !gone@.contains(id));
        }
        self.unconverted_l0s = remove_u64s(ids, &gone);
        assert(self@ =~= Meta {
            unconverted_l0s: unconverted_changed(before.unconverted_l0s, *tc),
            ..before
        });
    }

    /// Applies an optional change of full text search files.
    fn apply_fts_update_opt(&mut self, update: &Option<pb::FtsUpdate>)
        ensures
            final(self)@ == old(self)@.fts_updated_opt(*update),
    {
        if let Some(update) = update {
            self.apply_fts_update(update);
        }
    }

    /// Applies a change of full text search files.
    pub fn apply_fts_update(&mut self, update: &pb::FtsUpdate)
        ensures
            final(self)@ == old(self)@.fts_updated(*update),
    {
        let ghost before = self@;
        if update.clear_all {
            self.clear_fts();
            return;
        }
        self.untrack(&update.remove_tracked_indexes);
        self.track(&update.add_tracked_indexes);
        if self.fts_indexes.is_empty() {
            self.fts_pending_l0_ids.clear();
        }
        self.add_fts_files(update);
        if update.set_snap_version > 0 {
            self.fts_l0_snap_version = SnapVersion { version: update.set_snap_version };
        }
        let mut pending: Vec<u64> = Vec::new();
        std::mem::swap(&mut pending, &mut self.fts_pending_l0_ids);
        self.fts_pending_l0_ids = remove_u64s(pending, &update.pending_columnar_l0_remove_files);
        assert(self@ =~= before.fts_updated(*update));
    }

    fn untrack(&mut self, v: &Vec<pb::TableIndexId>)
        ensures
            final(self)@ == (Meta {
                fts_indexes: old(self)@.fts_indexes.difference(index_pairs(v@)),
                ..old(self)@
            }),
    {
        let ghost before = *self;
        let ghost start = self.fts_indexes@;
        let mut i: usize = 0;
        assert(index_pairs(v@.take(0)) =~= Set::empty());
        while i < v.len()
            invariant
                i <= v@.len(),
                *self == (ShardMeta { fts_indexes: self.fts_indexes, ..before }),
                self.fts_indexes@ =~= start.difference(index_pairs(v@.take(i as int))),
            decreases v@.len() - i,
        {
            proof {
                lemma_index_pairs_step(v@, i as int);
            }
            self.fts_indexes.remove(&(v[i].table_id, v[i].index_id));
            i = i + 1;
        }
        assert(v@.take(i as int) =~= v@);
    }

    fn track(&mut self, v: &Vec<pb::TableIndexId>)
        ensures
            final(self)@ == (Meta {
                fts_indexes: old(self)@.fts_indexes.union(index_pairs(v@)),
                ..old(self)@
            }),
    {
        let ghost before = *self;
        let ghost start = self.fts_indexes@;
        let mut i: usize = 0;
        assert(index_pairs(v@.take(0)) =~= Set::empty());
        while i < v.len()
            invariant
                i <= v@.len(),
                *self == (ShardMeta { fts_indexes: self.fts_indexes, ..before }),
                self.fts_indexes@ =~= start.union(index_pairs(v@.take(i as int))),
            decreases v@.len() - i,
        {
            proof {
                lemma_index_pairs_step(v@, i as int);
            }
            self.fts_indexes.insert((v[i].table_id, v[i].index_id));
            i = i + 1;
        }
        assert(v@.take(i as int) =~= v@);
    }

    fn add_fts_files(&mut self, update: &pb::FtsUpdate)
        ensures
            final(self)@ == (Meta {
                fts_l0_files: packed_without(
                    old(self)@.fts_l0_files + update.l0_add_files@,
                    update.l0_remove_files@,
                ),
                fts_l1_files: packed_without(
                    old(self)@.fts_l1_files + update.l1_add_files@,
                    update.l1_remove_files@,
                ),
                fts_l2_files: dedicated_without(
                    old(self)@.fts_l2_files + update.l2_add_files@,
                    update.l2_remove_files@,
                ),
                ..old(self)@
            }),
    {
        let mut l0: Vec<pb::FtsPackedFileInfo> = Vec::new();
        std::mem::swap(&mut l0, &mut self.fts_l0_files);
        let ghost l0_before = l0@;
        l0.extend_from_slice(update.l0_add_files.as_slice());
        assert(l0@ =~= l0_before + update.l0_add_files@);
        self.fts_l0_files = without_packed(l0, &update.l0_remove_files);
        let mut l1: Vec<pb::FtsPackedFileInfo> = Vec::new();
        std::mem::swap(&mut l1, &mut self.fts_l1_files);
        let ghost l1_before = l1@;
        l1.extend_from_slice(update.l1_add_files.as_slice());
        assert(l1@ =~= l1_before + update.l1_add_files@);
        self.fts_l1_files = without_packed(l1, &update.l1_remove_files);
        let mut l2: Vec<pb::FtsDedFileInfo> = Vec::new();
        std::mem::swap(&mut l2, &mut self.fts_l2_files);
        let ghost l2_before = l2@;
        l2.extend_from_slice(update.l2_add_files.as_slice());
        assert(l2@ =~= l2_before + update.l2_add_files@);
        self.fts_l2_files = without_dedicated(l2, &update.l2_remove_files);
    }

    /// Drops all full text search files.
    pub fn clear_fts(&mut self)
        ensures
            final(self)@ == old(self)@.fts_cleared(),
    {
        let ghost before = self@;
        self.fts_indexes = IndexSet::new();
        self.fts_l0_files.clear();
        self.fts_l1_files.clear();
        self.fts_l2_files.clear();
        self.fts_l0_snap_version = SnapVersion::zero();
        self.fts_pending_l0_ids.clear();
        assert(self@ =~= before.fts_cleared());
    }

    /// Keeps the full text search files of the listed tables.
    pub fn retain_fts(&mut self, columnar_table_ids: &Vec<i64>)
        ensures
            final(self)@ == old(self)@.fts_of_tables(columnar_table_ids@),
    {
        let ghost before = self@;
        let ids = columnar_table_ids;
        self.fts_indexes.retain_tables(ids);
        let mut l0: Vec<pb::FtsPackedFileInfo> = Vec::new();
        std::mem::swap(&mut l0, &mut self.fts_l0_files);
        self.fts_l0_files = retain_packed(l0, ids);
        let mut l1: Vec<pb::FtsPackedFileInfo> = Vec::new();
        std::mem::swap(&mut l1, &mut self.fts_l1_files);
        self.fts_l1_files = retain_packed(l1, ids);
        let mut l2: Vec<pb::FtsDedFileInfo> = Vec::new();
        std::mem::swap(&mut l2, &mut self.fts_l2_files);
        self.fts_l2_files = retain_dedicated(l2, ids);
        let mut pending: Vec<u64> = Vec::new();
        std::mem::swap(&mut pending, &mut self.fts_pending_l0_ids);
        let files = &self.files;
        let ghost p = |id: u64|
            files@.contains_key(id) && any_between(
                ids@,
                files@[id].table_ids.min,
                files@[id].table_ids.max,
            );
        let keep = |id: &u64| -> (b: bool)
            ensures
                b == p(*id),
            {
                match files.get(id) {
                    Some(fm) => has_between(ids, fm.table_ids.min, fm.table_ids.max),
                    None => false,
                }
            };
        let kept = retain_vec(pending, keep, Ghost(p));
        self.fts_pending_l0_ids = kept;
        assert(self@ =~= before.fts_of_tables(ids@));
    }

    /// Applies the removal of the keys of deleted prefixes.
    fn apply_destroy_range(&mut self, cs: &pb::ChangeSet)
        requires
            cs.destroy_range is Some,
            deletions_valid(old(self)@.props),
            old(self)@.props.contains_key(DEL_PREFIXES_KEY@) ==> decoded(
                content(cs.property_value),
            ) is Some,
        ensures
            final(self)@ == old(self)@.range_destroyed(*cs),
    {
        let ghost before = self@;
        if let Some(tc) = &cs.destroy_range {
            self.apply_table_change(tc);
            self.apply_table_change_to_unconverted_l0s(tc);
        }
        self.apply_fts_update_opt(&cs.fts_update);
        if let Some(data) = self.properties.get(DEL_PREFIXES_KEY) {
            let old_prefixes = DeletePrefixes::unmarshal(&data, self.range.keyspace_id);
            let done = DeletePrefixes::unmarshal(&cs.property_value, self.range.keyspace_id);
            let new_prefixes = old_prefixes.split(&done);
            let buf = new_prefixes.marshal();
            self.properties.set(DEL_PREFIXES_KEY, buf.as_slice());
        }
        assert(self@ =~= before.range_destroyed(*cs));
    }

    /// Applies the removal of the newest versions.
    fn apply_truncate_ts(&mut self, cs: &pb::ChangeSet)
        requires
            cs.truncate_ts is Some,
        ensures
            final(self)@ == old(self)@.changed(cs.truncate_ts->0).fts_updated_opt(cs.fts_update),
    {
        if let Some(tc) = &cs.truncate_ts {
            self.apply_table_change(tc);
            self.apply_table_change_to_unconverted_l0s(tc);
        }
        self.apply_fts_update_opt(&cs.fts_update);
    }

    /// Applies the removal of the keys outside the shard.
    fn apply_trim_over_bound(&mut self, cs: &pb::ChangeSet)
        requires
            cs.trim_over_bound is Some,
        ensures
            final(self)@ == old(self)@.trimmed(*cs),
    {
        if let Some(tc) = &cs.trim_over_bound {
            self.apply_table_change(tc);
            self.apply_table_change_to_unconverted_l0s(tc);
        }
        self.apply_fts_update_opt(&cs.fts_update);
        self.set_property(TRIM_OVER_BOUND, &TRIM_OVER_BOUND_DISABLE);
    }

    /// Applies files from outside.
    fn apply_ingest_files(&mut self, ingest_files: &pb::IngestFiles)
        requires
            props_valid(ingest_files.properties),
        ensures
            final(self)@ == old(self)@.ingested(*ingest_files),
    {
        self.max_ts = max_u64(self.max_ts, ingest_files.max_ts);
        self.properties.apply(&ingest_files.properties);
        insert_files(&mut self.files, &table_entries(&ingest_files.table_creates));
        insert_files(&mut self.files, &l0_entries(&ingest_files.l0_creates));
        insert_files(&mut self.files, &blob_entries(&ingest_files.blob_creates));
        if let Some(table_id) = ingest_files.table_id {
            let mut ids: Vec<i64> = Vec::new();
            std::mem::swap(&mut ids, &mut self.columnar_table_ids);
            let ghost p = |id: i64| id != table_id;
            let keep = |id: &i64| -> (b: bool)
                ensures
                    b == (*id != table_id),
                {
                    *id != table_id
                };
            self.columnar_table_ids = retain_vec(ids, keep, Ghost(p));
        }
    }

    /// Applies a restore.
    fn apply_restore_shard(&mut self, cs: &pb::ChangeSet)
        requires
            holds_shard(*cs),
            cs.shard_ver < u64::MAX,
        ensures
            final(self)@ == old(self)@.restored(*cs),
    {
        let mut new_meta = ShardMeta::new(self.engine_id, cs);
        new_meta.data_sequence = cs.sequence;
        new_meta.ver = cs.shard_ver + 1;
        *self = new_meta;
    }

    /// Applies a compaction of columnar files.
    pub fn apply_columnar_compaction(&mut self, comp: &pb::ColumnarCompaction)
        ensures
            final(self)@ == old(self)@.columnar_compacted(*comp),
    {
        let ghost before = self@;
        if comp.target_level == 2 {
            self.columnar_l2_snap_version = SnapVersion { version: comp.snap_version };
        }
        insert_files(&mut self.files, &columnar_entries(&comp.columnar_change.columnar_creates));
        remove_ids(&mut self.files, &ids_of_dels(&comp.columnar_change.columnar_deletes));
        let mut unconverted: Vec<u64> = Vec::new();
        std::mem::swap(&mut unconverted, &mut self.unconverted_l0s);
        proof {
            lemma_filter_set(unconverted@, |id: u64| !comp.row_l0s@.contains(id));
        }
        unconverted = remove_u64s(unconverted, &comp.row_l0s);
        if self.columnar_table_ids.len() == 0 {
            let mut more = self.flushed_l0s(&comp.row_l0s);
            proof {
                lemma_concat_set(unconverted@, more@);
            }
            unconverted.append(&mut more);
        }
        if comp.snap_version == 0 {
            self.columnar_table_ids.clear();
            self.vector_indexes.clear();
            self.clear_fts();
            let restore_ver = self.schema.restore_ver();
            self.schema.clear(restore_ver);
            assert(vectors_of(self.vector_indexes@) =~= Seq::empty());
        } else {
            let mut ids: Vec<i64> = Vec::new();
            std::mem::swap(&mut ids, &mut self.columnar_table_ids);
            extend_i64s(&mut ids, &comp.columnar_table_ids);
            ids = sorted_ids(&ids);
            ids = remove_i64s(ids, &comp.columnar_table_ids_to_clear);
            retain_vectors(&mut self.vector_indexes, &ids);
            if ids.len() > 0 {
                self.unconverted_l0s = unconverted;
            }
            self.retain_fts(&ids);
            self.columnar_table_ids = ids;
        }
        if comp.is_manual_major_compaction {
            self.properties.remove(MANUAL_MAJOR_COMPACTION);
        }
        assert(self@ =~= before.columnar_compacted(*comp));
    }

    /// The tables of level 0 that are not in the list.
    fn flushed_l0s(&self, row_l0s: &Vec<u64>) -> (res: Vec<u64>)
        ensures
            res@.to_set() == other_l0s(self@.files, row_l0s@),
    {
        let ghost p = |id: u64, fm: FileMeta|
            fm.level == 0 && fm.file_type is Sst && !row_l0s@.contains(id);
        let keep = |id: u64, fm: &FileMeta| -> (b: bool)
            ensures
                b == p(id, *fm),
            {
                fm.level == 0 && fm.is_sst_file() && !contains_u64(row_l0s, id)
            };
        let res = ids_where(&self.files, keep, Ghost(p));
        assert(res@.to_set() =~= other_l0s(self@.files, row_l0s@));
        res
    }

    /// Applies a change of the files of a vector index.
    pub fn apply_update_vector_index(&mut self, update_vec_idx: &pb::UpdateVectorIndex)
        ensures
            final(self)@ == (Meta {
                vector_indexes: vectors_updated(old(self)@.vector_indexes, *update_vec_idx),
                ..old(self)@
            }),
    {
        update_vectors(&mut self.vector_indexes, update_vec_idx);
    }

    /// Takes over what differs from an earlier snapshot.
    pub fn apply_snapshot_diff(&mut self, ver: u64, snap: &pb::Snapshot)
        requires
            opt_props_valid(snap.properties),
        ensures
            final(self)@ == old(self)@.diffed(ver, *snap),
    {
        self.ver = ver;
        if let Some(props) = &snap.properties {
            self.properties.apply(props);
        }
        if snap.data_sequence > 0 {
            self.data_sequence = snap.data_sequence;
        }
        if let Some(sm) = &snap.schema_meta {
            self.schema.update_by_restore(sm.file_id, sm.version, sm.restore_version);
        }
    }

    /// Drops all columnar files.
    pub fn clear_columnar(&mut self, restore_version: Option<u64>)
        ensures
            final(self)@ == old(self)@.columnar_cleared(restore_version),
    {
        let ghost before = self@;
        let restore_ver: u64 = match restore_version {
            Some(v) => v,
            None => self.schema.restore_ver(),
        };
        self.schema.clear(restore_ver);
        self.columnar_table_ids.clear();
        self.columnar_l2_snap_version = SnapVersion::zero();
        self.unconverted_l0s.clear();
        self.vector_indexes.clear();
        self.clear_fts();
        let keep = |fm: &FileMeta| -> (b: bool)
            ensures
                b == row_file(*fm),
            {
                !fm.is_columnar_file() && !fm.is_schema_file() && !fm.is_vector_index_file()
                    && !fm.is_fts_file()
            };
        retain_files(&mut self.files, keep, Ghost(|fm: FileMeta| row_file(fm)));
        assert(vectors_of(self.vector_indexes@) =~= Seq::empty());
        assert(self@ =~= before.columnar_cleared(restore_version));
    }

    /// Sets the property of a change set.
    fn apply_property(&mut self, cs: &pb::ChangeSet)
        requires
            cs.property_merge ==> {
                &&& deletions_valid(old(self)@.props)
                &&& content(cs.property_value).len() >= prefix_len_of_id(
                    old(self)@.range.keyspace_id,
                )
            },
        ensures
            final(self)@ == old(self)@.property_set(*cs),
    {
        if cs.property_merge {
            let prefixes = match self.properties.get(DEL_PREFIXES_KEY) {
                Some(data) => DeletePrefixes::unmarshal(&data, self.range.keyspace_id),
                None => DeletePrefixes::new_with_keyspace_id(self.range.keyspace_id),
            };
            let merged = prefixes.merge_prefix(&cs.property_value);
            let buf = merged.marshal();
            self.properties.set(DEL_PREFIXES_KEY, buf.as_slice());
        } else if str_eq(cs.property_key.as_str(), STORAGE_CLASS_KEY) {
            self.apply_update_storage_class(cs);
        } else {
            self.properties.set_bytes(cs.property_key.as_str(), cs.property_value.clone());
        }
    }

    /// Sets or removes the storage class.
    fn apply_update_storage_class(&mut self, cs: &pb::ChangeSet)
        requires
            !cs.property_merge,
            cs.property_key@ == STORAGE_CLASS_KEY@,
        ensures
            final(self)@ == old(self)@.property_set(*cs),
    {
        if cs.storage_class.is_specified() {
            self.properties.set_bytes(cs.property_key.as_str(), cs.property_value.clone());
        } else {
            self.properties.remove(cs.property_key.as_str());
        }
    }

    /// Applies a change set.
    pub fn apply_change_set(&mut self, cs: &pb::ChangeSet)
        requires
            old(self)@.can_apply(*cs),
        ensures
            final(self)@ == old(self)@.applied(*cs),
    {
        self.seq = cs.sequence;
        if cs.initial_flush.is_some() {
            self.apply_initial_flush(cs);
            return;
        }
        if let Some(flush) = &cs.flush {
            self.apply_flush(flush);
            return;
        }
        if let Some(comp) = &cs.compaction {
            self.apply_compaction(comp);
            return;
        }
        if cs.destroy_range.is_some() {
            self.apply_destroy_range(cs);
            return;
        }
        if cs.truncate_ts.is_some() {
            self.apply_truncate_ts(cs);
            return;
        }
        if cs.trim_over_bound.is_some() {
            self.apply_trim_over_bound(cs);
            return;
        }
        if let Some(ingest_files) = &cs.ingest_files {
            self.apply_ingest_files(ingest_files);
            return;
        }
        if cs.restore_shard.is_some() {
            self.apply_restore_shard(cs);
            return;
        }
        if let Some(comp) = &cs.major_compaction {
            self.apply_major_compaction(comp);
            return;
        }
        if let Some(sm) = &cs.update_schema_meta {
            self.schema.update_from_schema_meta(sm);
            return;
        }
        if let Some(comp) = &cs.columnar_compaction {
            self.apply_columnar_compaction(comp);
            return;
        }
        if let Some(update) = &cs.update_vector_index {
            self.apply_update_vector_index(update);
            return;
        }
        if let Some(update) = &cs.fts_update {
            self.apply_fts_update(update);
            return;
        }
        if cs.clear_columnar || cs.clear_columnar_with_restore_version.is_some() {
            self.clear_columnar(cs.clear_columnar_with_restore_version);
            return;
        }
        if let Some(snap) = &cs.snapshot_diff {
            self.apply_snapshot_diff(cs.shard_ver, snap);
            return;
        }
        self.apply_property(cs);
    }
}

} // verus!
