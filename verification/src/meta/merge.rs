//! Merging two shards.
use bytes::Bytes;
use std::collections::HashMap;
use vstd::prelude::*;

use crate::del_prefixes::{
    encoded, merge_all, merge_del_prefixes_if_needed, prefixes_at_least, property_decodes,
    property_prefixes,
};
use crate::file_meta::FileMeta;
use crate::files::{file_ids, files_where, retain_files};
use crate::key::{bytes_eq, lemma_le_transitive, lemma_not_lt, lex_le};
use crate::keyspace::{is_belongs_to_same_keyspace, prefix_len_of_id, same_keyspace};
use crate::lists::{any_between, has_between};
use crate::merge_rule::{leaves, need_clear_region_data_on_merge};
use crate::meta::apply::{deletions, deletions_valid, higher};
use crate::meta::{Meta, ShardMeta};
use crate::pb;
use crate::properties::{lemma_keys_differ, DEL_PREFIXES_KEY, ENCRYPTION_KEY, STORAGE_CLASS_KEY};
use crate::range::Range;
use crate::txn_locks::{is_locked, locks_of, Locks, TxnFileLocks};
use crate::vectors::{
    merge_vector, merge_vectors, retain_vectors, vector_of, vectors_merged, vectors_of,
    vectors_of_tables, vectors_with, Vector,
};

verus! {

broadcast use vstd::std_specs::hash::group_hash_axioms;

/// The properties with the value of a key as another map has it.
pub open spec fn taken_from(
    props: Map<Seq<char>, Seq<u8>>,
    key: Seq<char>,
    other: Map<Seq<char>, Seq<u8>>,
) -> Map<Seq<char>, Seq<u8>> {
    if other.contains_key(key) {
        props.insert(key, other[key])
    } else {
        props.remove(key)
    }
}

/// A file that stays where only the listed tables are kept as columns.
pub open spec fn stays(fm: FileMeta, ids: Seq<i64>) -> bool {
    !(fm.file_type is Columnar || fm.file_type is VectorIndex) || any_between(
        ids,
        fm.table_ids.min,
        fm.table_ids.max,
    )
}

/// The range of two shards in one.
pub open spec fn joined(target: Range, source: Range) -> Range {
    if target.end == source.start {
        Range { end: source.end, ..target }
    } else {
        Range { start: source.start, ..target }
    }
}

impl Meta {
    /// Before the merge is committed: the version moves on, and what was is kept
    /// as the parent.
    pub open spec fn merge_prepared(self, sequence: u64) -> Meta {
        Meta {
            ver: (self.ver + 1) as u64,
            seq: sequence,
            data_sequence: sequence,
            parent: Some(Box::new(self)),
            ..self
        }
    }

    /// The source leaves no data.
    pub open spec fn clears_source(self, source: Meta) -> bool {
        leaves(source.range.start, self.range.start)
    }

    /// The target keeps no data.
    pub open spec fn clears_target(self, source: Meta) -> bool {
        leaves(self.range.start, source.range.start)
    }

    /// The properties of the target once its keyspace may have changed.
    pub open spec fn props_for_merge(self, source: Meta) -> Map<Seq<char>, Seq<u8>> {
        if same_keyspace(source.range.start, self.range.start) {
            self.props
        } else {
            self.props.remove(ENCRYPTION_KEY@)
        }
    }

    /// The files of both, but for those that leave.
    pub open spec fn files_merged(self, source: Meta) -> Map<u64, FileMeta> {
        let own = if self.clears_target(source) {
            Map::empty()
        } else {
            self.files
        };
        if self.clears_source(source) {
            own
        } else {
            own.union_prefer_right(source.files)
        }
    }

    /// What the first flush after the merge starts from.
    pub open spec fn merge_parent(self, source: Meta) -> Meta {
        let props = self.props_for_merge(source);
        let moves = self.clears_target(source) && !self.clears_source(source);
        Meta {
            max_ts: higher(self.max_ts, source.max_ts),
            files: self.files_merged(source),
            vector_indexes: if self.clears_target(source) {
                Seq::empty()
            } else {
                self.vector_indexes
            },
            inner_key_off: if moves {
                source.inner_key_off
            } else {
                self.inner_key_off
            },
            props: if moves {
                taken_from(props, STORAGE_CLASS_KEY@, source.props)
            } else {
                props
            },
            ..self
        }
    }

    /// The properties of the merged shard.
    pub open spec fn props_merged(self, source: Meta) -> Map<Seq<char>, Seq<u8>> {
        let base = self.props_for_merge(source);
        let own = if self.clears_target(source) {
            base.remove(DEL_PREFIXES_KEY@).remove(STORAGE_CLASS_KEY@)
        } else {
            base
        };
        if self.clears_source(source) {
            own
        } else {
            let taken = if self.clears_target(source) {
                taken_from(own, STORAGE_CLASS_KEY@, source.props)
            } else {
                own
            };
            if taken.contains_key(DEL_PREFIXES_KEY@) || source.props.contains_key(
                DEL_PREFIXES_KEY@,
            ) {
                taken.insert(
                    DEL_PREFIXES_KEY@,
                    encoded(merge_all(deletions(source.props), deletions(taken))),
                )
            } else {
                taken
            }
        }
    }

    /// The vector indexes of both, but for those that leave.
    pub open spec fn vectors_for_merge(self, source: Meta) -> Seq<Vector> {
        let own = if self.clears_target(source) {
            Seq::empty()
        } else {
            self.vector_indexes
        };
        if self.clears_source(source) {
            own
        } else {
            vectors_merged(own, source.vector_indexes)
        }
    }

    /// The merged shard. `ids` are the tables that are kept as columns in both.
    pub open spec fn merge_committed(self, source: Meta, sequence: u64, ids: Seq<i64>) -> Meta {
        Meta {
            ver: (higher(self.ver, source.ver) + 1) as u64,
            range: joined(self.range, source.range),
            inner_key_off: self.merge_parent(source).inner_key_off,
            seq: sequence,
            files: files_where(self.files_merged(source), |fm: FileMeta| stays(fm, ids)),
            props: self.props_merged(source),
            base_version: (higher(
                (source.base_version + source.seq) as u64,
                (self.base_version + sequence) as u64,
            ) - sequence) as u64,
            data_sequence: sequence,
            max_ts: higher(self.max_ts, source.max_ts),
            parent: Some(Box::new(self.merge_parent(source))),
            schema: if self.clears_source(source) {
                self.schema
            } else {
                self.schema.merged(source.schema)
            },
            columnar_table_ids: ids,
            unconverted_l0s: if ids.len() == 0 {
                Set::empty()
            } else {
                self.unconverted_l0s
            },
            vector_indexes: vectors_of_tables(self.vectors_for_merge(source), ids),
            columnar_l2_snap_version: self.columnar_l2_snap_version.spec_max(
                source.columnar_l2_snap_version,
            ),
            ..self
        }
    }

    /// The prefixes to be deleted are well formed, and the numbers fit their types.
    pub open spec fn can_merge(self, source: Meta, sequence: u64) -> bool {
        &&& self.ver < u64::MAX
        &&& source.ver < u64::MAX
        &&& source.base_version + source.seq <= u64::MAX
        &&& self.base_version + sequence <= u64::MAX
        &&& !self.clears_source(source) ==> {
            &&& deletions_valid(source.props)
            &&& !self.clears_target(source) ==> {
                &&& deletions_valid(self.props)
                &&& prefixes_at_least(
                    deletions(self.props),
                    prefix_len_of_id(self.range.keyspace_id),
                )
            }
        }
    }
}

/// Adds the files of another map.
pub fn add_files(m: &mut HashMap<u64, FileMeta>, other: &HashMap<u64, FileMeta>)
    ensures
        final(m)@ == old(m)@.union_prefer_right(other@),
{
    let ghost before = m@;
    let ids = file_ids(other);
    let mut i: usize = 0;
    while i < ids.len()
        invariant
            i <= ids@.len(),
            ids@.to_set() == other@.dom(),
            forall|k: u64| #[trigger]
                m@.contains_key(k) <==> before.contains_key(k) || ids@.take(i as int).contains(k),
            forall|k: u64| #[trigger]
                m@.contains_key(k) ==> m@[k] == if ids@.take(i as int).contains(k) {
                    other@[k]
                } else {
                    before[k]
                },
        decreases ids@.len() - i,
    {
        assert(ids@.to_set().contains(ids@[i as int]));
        let ghost now = m@;
        let ghost id = ids@[i as int];
        m.insert(ids[i], other.get(&ids[i]).unwrap().clone());
        proof {
            assert forall|k: u64| ids@.take(i + 1).contains(k) <==> ids@.take(i as int).contains(k)
                || k == id by {
                let t = ids@.take(i as int);
                let u = ids@.take(i + 1);
                if t.contains(k) {
                    let j = choose|j: int| 0 <= j < t.len() && t[j] == k;
                    assert(u[j] == k);
                }
                if u.contains(k) && k != id {
                    let j = choose|j: int| 0 <= j < u.len() && u[j] == k;
                    assert(t[j] == k);
                }
                assert(u[i as int] == id);
            }
        }
        i = i + 1;
    }
    proof {
        assert(ids@.take(i as int) =~= ids@);
        assert forall|k: u64| ids@.contains(k) <==> other@.contains_key(k) by {
            assert(ids@.to_set().contains(k) <==> ids@.contains(k));
        }
        assert(m@ =~= before.union_prefer_right(other@));
    }
}

impl ShardMeta {
    /// Takes an index over: its new files join the index that is there already, and
    /// an index that is not there joins the others.
    pub fn merge_vector_index(&mut self, vec_idx: &pb::VectorIndex)
        ensures
            final(self)@ == (Meta {
                vector_indexes: vectors_with(old(self)@.vector_indexes, vector_of(*vec_idx)),
                ..old(self)@
            }),
    {
        merge_vector(&mut self.vector_indexes, vec_idx);
    }

    /// Takes the value of a property from another shard.
    fn set_property_from_other(&mut self, key: &str, other: &ShardMeta)
        ensures
            final(self)@ == (Meta {
                props: taken_from(old(self)@.props, key@, other@.props),
                ..old(self)@
            }),
    {
        if let Some(value) = other.get_property(key) {
            self.set_property_bytes(key, value);
        } else {
            self.del_property(key);
        }
    }

    /// Prepares a merge.
    pub fn prepare_merge(&mut self, sequence: u64)
        requires
            old(self)@.ver < u64::MAX,
        ensures
            final(self)@ == old(self)@.merge_prepared(sequence),
    {
        let parent = self.copy();
        self.ver = self.ver + 1;
        self.seq = sequence;
        self.data_sequence = sequence;
        self.parent = Some(Box::new(parent));
    }

    /// Gives a prepared merge up.
    pub fn rollback_merge(&mut self, sequence: u64)
        requires
            old(self)@.ver < u64::MAX,
        ensures
            final(self)@ == (Meta {
                ver: (old(self)@.ver + 1) as u64,
                seq: sequence,
                ..old(self)@
            }),
    {
        self.ver = self.ver + 1;
        self.seq = sequence;
    }

    /// Keeps the columnar files and vector indexes of the listed tables.
    fn retain_columnar_and_vector(&mut self)
        ensures
            final(self)@ == (Meta {
                files: files_where(
                    old(self)@.files,
                    |fm: FileMeta| stays(fm, old(self)@.columnar_table_ids),
                ),
                unconverted_l0s: if old(self)@.columnar_table_ids.len() == 0 {
                    Set::empty()
                } else {
                    old(self)@.unconverted_l0s
                },
                vector_indexes: vectors_of_tables(
                    old(self)@.vector_indexes,
                    old(self)@.columnar_table_ids,
                ),
                ..old(self)@
            }),
    {
        let ids = crate::lists::copy_i64s(&self.columnar_table_ids);
        let keep = |fm: &FileMeta| -> (b: bool)
            ensures
                b == stays(*fm, ids@),
            {
                (!fm.is_columnar_file() && !fm.is_vector_index_file()) || has_between(
                    &ids,
                    fm.table_ids.min,
                    fm.table_ids.max,
                )
            };
        retain_files(&mut self.files, keep, Ghost(|fm: FileMeta| stays(fm, ids@)));
        if ids.len() == 0 {
            self.unconverted_l0s.clear();
            assert(self.unconverted_l0s@.to_set() =~= Set::empty());
        }
        retain_vectors(&mut self.vector_indexes, &ids);
    }

    /// What the first flush after the merge starts from.
    fn to_merge_parent(&self, source: &ShardMeta) -> (res: ShardMeta)
        requires
            self@.props == self@.props_for_merge(source@),
        ensures
            res@ == self@.merge_parent(source@),
    {
        let (clear_source, clear_target) = need_clear_region_data_on_merge(
            &source.range.outer_start,
            &self.range.outer_start,
        );
        let mut parent = self.copy();
        if source.max_ts > parent.max_ts {
            parent.max_ts = source.max_ts;
        }
        if clear_target {
            parent.files.clear();
            parent.vector_indexes.clear();
            assert(vectors_of(parent.vector_indexes@) =~= Seq::empty());
        }
        if !clear_source {
            add_files(&mut parent.files, &source.files);
            if clear_target {
                parent.inner_key_off = source.inner_key_off;
                parent.set_property_from_other(STORAGE_CLASS_KEY, source);
            }
        }
        assert(parent@ =~= self@.merge_parent(source@));
        parent
    }

    /// Merges the source into the shard. `columnar_table_ids` are the tables that
    /// are kept as columns in both.
    pub fn commit_merge(
        &mut self,
        source: &ShardMeta,
        sequence: u64,
        columnar_table_ids: Vec<i64>,
    )
        requires
            old(self)@.can_merge(source@, sequence),
        ensures
            final(self)@ == old(self)@.merge_committed(source@, sequence, columnar_table_ids@),
    {
        let ghost before = self@;
        let ghost src = source@;
        let same = is_belongs_to_same_keyspace(
            &source.range.outer_start,
            &self.range.outer_start,
        );
        if !same {
            self.del_property(ENCRYPTION_KEY);
        }
        let (clear_source, clear_target) = need_clear_region_data_on_merge(
            &source.range.outer_start,
            &self.range.outer_start,
        );
        proof {
            lemma_keys_differ();
            assert(self@.props =~= self@.props_for_merge(src));
        }
        let parent = self.to_merge_parent(source);
        assert(parent@ =~= before.merge_parent(src)) by {
            if !same {
                assert(before.props.remove(ENCRYPTION_KEY@).remove(ENCRYPTION_KEY@)
                    =~= before.props.remove(ENCRYPTION_KEY@));
            }
        }
        if source.max_ts > self.max_ts {
            self.max_ts = source.max_ts;
        }
        if clear_target {
            self.files.clear();
            self.vector_indexes.clear();
            self.del_property(DEL_PREFIXES_KEY);
            self.del_property(STORAGE_CLASS_KEY);
            assert(vectors_of(self.vector_indexes@) =~= Seq::empty());
        }
        if !clear_source {
            add_files(&mut self.files, &source.files);
            merge_vectors(&mut self.vector_indexes, &source.vector_indexes);
            if clear_target {
                self.inner_key_off = source.inner_key_off;
                self.set_property_from_other(STORAGE_CLASS_KEY, source);
            }
            proof {
                let now = self@.props;
                if now.contains_key(DEL_PREFIXES_KEY@) {
                    assert(before.props.contains_key(DEL_PREFIXES_KEY@));
                    assert(now[DEL_PREFIXES_KEY@] == before.props[DEL_PREFIXES_KEY@]);
                    assert(deletions(now) == deletions(before.props));
                }
            }
            self.merge_deletions(source);
            self.schema.merge_from(&source.schema);
        }
        assert(self@.props =~= before.props_merged(src));
        assert(self@.files =~= before.files_merged(src));
        assert(self@.vector_indexes =~= before.vectors_for_merge(src));
        if bytes_eq(&self.range.outer_end, &source.range.outer_start) {
            self.range.outer_end = source.range.outer_end.clone();
        } else {
            self.range.outer_start = source.range.outer_start.clone();
        }
        self.ver = if self.ver >= source.ver {
            self.ver + 1
        } else {
            source.ver + 1
        };
        let source_mem_tbl_version: u64 = source.base_version + source.seq;
        let target_mem_tbl_version: u64 = self.base_version + sequence;
        self.base_version = if source_mem_tbl_version >= target_mem_tbl_version {
            source_mem_tbl_version - sequence
        } else {
            target_mem_tbl_version - sequence
        };
        self.data_sequence = sequence;
        self.columnar_table_ids = columnar_table_ids;
        self.columnar_l2_snap_version = self.columnar_l2_snap_version.higher(
            source.columnar_l2_snap_version,
        );
        self.retain_columnar_and_vector();
        self.parent = Some(Box::new(parent));
        self.seq = sequence;
        assert(self@ =~= before.merge_committed(src, sequence, columnar_table_ids@));
    }

    /// Merges the prefixes that are to be deleted.
    fn merge_deletions(&mut self, source: &ShardMeta)
        requires
            deletions_valid(old(self)@.props),
            deletions_valid(source@.props),
            prefixes_at_least(
                deletions(old(self)@.props),
                prefix_len_of_id(old(self)@.range.keyspace_id),
            ),
        ensures
            final(self)@ == (Meta {
                props: if old(self)@.props.contains_key(DEL_PREFIXES_KEY@)
                    || source@.props.contains_key(DEL_PREFIXES_KEY@) {
                    old(self)@.props.insert(
                        DEL_PREFIXES_KEY@,
                        encoded(merge_all(deletions(source@.props), deletions(old(self)@.props))),
                    )
                } else {
                    old(self)@.props
                },
                ..old(self)@
            }),
    {
        let source_prefixes = source.get_property(DEL_PREFIXES_KEY);
        let own_prefixes = self.get_property(DEL_PREFIXES_KEY);
        proof {
            assert(property_decodes(source_prefixes));
            assert(property_decodes(own_prefixes));
            assert(property_prefixes(source_prefixes) =~= deletions(source@.props));
            assert(property_prefixes(own_prefixes) =~= deletions(self@.props));
        }
        if let Some(buf) = merge_del_prefixes_if_needed(
            source_prefixes,
            own_prefixes,
            self.range.keyspace_id,
        ) {
            self.set_property(DEL_PREFIXES_KEY, buf.as_slice());
        }
    }

    /// Notes that a transaction file took its locks or released them.
    pub fn merge_txn_file_ref(&mut self, wb_ref: &pb::TxnFileRef, log_index: u64)
        ensures
            final(self)@ == (Meta {
                locks: Locks {
                    seq: log_index,
                    prefixes: if is_locked(*wb_ref) {
                        old(self)@.locks.prefixes.insert(wb_ref.start_ts, wb_ref.lock_val_prefix)
                    } else {
                        old(self)@.locks.prefixes.remove(wb_ref.start_ts)
                    },
                },
                ..old(self)@
            }),
    {
        let prefix: &[u8] = &wb_ref.lock_val_prefix;
        if prefix.len() > 0 {
            self.txn_file_locks.insert(log_index, wb_ref.start_ts, wb_ref.lock_val_prefix.clone());
        } else {
            self.txn_file_locks.remove(log_index, wb_ref.start_ts);
        }
    }

    /// Whether a transaction file holds locks.
    pub fn has_txn_file_locks(&self) -> (res: bool)
        ensures
            res == !(self@.locks.prefixes =~= Map::<u64, Bytes>::empty()),
    {
        !self.txn_file_locks.is_empty()
    }

    /// The locks of transaction files.
    pub fn txn_file_locks(&self) -> (res: &TxnFileLocks)
        ensures
            res@ == self@.locks,
    {
        &self.txn_file_locks
    }

    /// Takes the locks of transaction files from the memory of the shard, if it is
    /// there: what was written last, and the files that hold locks.
    pub fn recover_txn_file_locks(&mut self, shard: Option<(u64, &Vec<pb::TxnFileRef>)>)
        ensures
            match shard {
                Some((seq, refs)) => final(self)@ == (Meta {
                    locks: Locks { seq, prefixes: locks_of(refs@) },
                    ..old(self)@
                }),
                None => final(self)@ == old(self)@,
            },
    {
        if let Some((seq, refs)) = shard {
            self.txn_file_locks = TxnFileLocks::from_refs(seq, refs);
        }
    }
}

/// A shard that is joined with its neighbour holds the keys of both and no others.
pub proof fn law_joined_range_is_both(target: Range, source: Range, k: Seq<u8>)
    requires
        lex_le(target.start, target.end),
        lex_le(source.start, source.end),
        target.end == source.start || (source.end == target.start && target.end != source.start),
    ensures
        joined(target, source).has(k) <==> target.has(k) || source.has(k),
{
    if target.end == source.start {
        lemma_not_lt(k, target.end);
        if target.has(k) {
            lemma_le_transitive(k, target.end, source.end);
        }
        if source.has(k) {
            lemma_le_transitive(target.start, source.start, k);
        }
    } else {
        lemma_not_lt(k, target.start);
        if target.has(k) {
            lemma_le_transitive(source.start, target.start, k);
        }
        if source.has(k) {
            lemma_le_transitive(k, source.end, target.end);
        }
    }
}

/// What is written to a merged shard is newer than what either of the two had in
/// memory.
pub proof fn law_merged_version_is_highest(m: Meta, source: Meta, sequence: u64, ids: Seq<i64>)
    requires
        m.can_merge(source, sequence),
    ensures
        m.merge_committed(source, sequence, ids).version() >= m.base_version + sequence,
        m.merge_committed(source, sequence, ids).version() >= source.base_version + source.seq,
        m.merge_committed(source, sequence, ids).ver > m.ver,
        m.merge_committed(source, sequence, ids).ver > source.ver,
{
}

/// Where both shards are of one keyspace, every file of rows of either is a file
/// of the merged shard, and there is no other file.
pub proof fn law_merge_keeps_row_files(
    m: Meta,
    source: Meta,
    sequence: u64,
    ids: Seq<i64>,
    id: u64,
)
    requires
        same_keyspace(source.range.start, m.range.start),
        same_keyspace(m.range.start, source.range.start),
    ensures
        m.merge_committed(source, sequence, ids).files.contains_key(id) ==> m.files.contains_key(id)
            || source.files.contains_key(id),
        source.files.contains_key(id) && source.files[id].file_type is Sst ==> m.merge_committed(
            source,
            sequence,
            ids,
        ).files.contains_key(id) && m.merge_committed(source, sequence, ids).files[id]
            == source.files[id],
        m.files.contains_key(id) && m.files[id].file_type is Sst && !source.files.contains_key(id)
            ==> m.merge_committed(source, sequence, ids).files.contains_key(id)
            && m.merge_committed(source, sequence, ids).files[id] == m.files[id],
{
}

} // verus!
