//! A shard as a message, and what is read off its files.
use bytes::Bytes;
use vstd::prelude::*;

use crate::buf::content;
use crate::file_meta::{FileMeta, FileType, SnapVersion};
use crate::files::{
    blob_entries_of, columnar_entries_of, files_where, ids_where, ids_with, l0_entries_of,
    retain_files, table_entries_of, with_files,
};
use crate::lists::{
    contains_u64, copy_i64s, copy_u64s, lemma_concat_set, lemma_filter_set, retain_vec,
};
use crate::meta::{copy_dedicated, copy_packed, index_pairs, snap_files, Meta, ShardMeta};
use crate::pb;
use crate::properties::{set_all, TERM_KEY};
use crate::vectors::{copy_vectors, vectors_of};

verus! {

broadcast use vstd::std_specs::hash::group_hash_axioms;

/// A table of level 0.
pub open spec fn is_l0(fm: FileMeta) -> bool {
    fm.file_type is Sst && fm.level == 0
}

/// A table of a lower level.
pub open spec fn is_ln(fm: FileMeta) -> bool {
    fm.file_type is Sst && fm.level > 0
}

/// Lists each table of level 0 once.
pub open spec fn lists_l0s(v: Seq<pb::L0Create>, files: Map<u64, FileMeta>) -> bool {
    let ids = Seq::new(v.len(), |i: int| v[i].id);
    &&& ids.no_duplicates()
    &&& ids.to_set() == ids_with(files, |id: u64, fm: FileMeta| is_l0(fm))
    &&& forall|i: int| 0 <= i < v.len() ==> (#[trigger] v[i]) == files[v[i].id].l0_create(v[i].id)
}

/// Lists each table of the lower levels once.
pub open spec fn lists_tables(v: Seq<pb::TableCreate>, files: Map<u64, FileMeta>) -> bool {
    let ids = Seq::new(v.len(), |i: int| v[i].id);
    &&& ids.no_duplicates()
    &&& ids.to_set() == ids_with(files, |id: u64, fm: FileMeta| is_ln(fm))
    &&& forall|i: int|
        0 <= i < v.len() ==> (#[trigger] v[i]) == files[v[i].id].table_create(v[i].id)
}

/// Lists each columnar file once.
pub open spec fn lists_columnars(v: Seq<pb::ColumnarCreate>, files: Map<u64, FileMeta>) -> bool {
    let ids = Seq::new(v.len(), |i: int| v[i].id);
    &&& ids.no_duplicates()
    &&& ids.to_set() == ids_with(files, |id: u64, fm: FileMeta| fm.file_type is Columnar)
    &&& forall|i: int|
        0 <= i < v.len() ==> (#[trigger] v[i]) == files[v[i].id].columnar_create(v[i].id)
}

/// Lists each blob table once.
pub open spec fn lists_blobs(v: Seq<pb::BlobCreate>, files: Map<u64, FileMeta>) -> bool {
    let ids = Seq::new(v.len(), |i: int| v[i].id);
    &&& ids.no_duplicates()
    &&& ids.to_set() == ids_with(files, |id: u64, fm: FileMeta| fm.file_type is Blob)
    &&& forall|i: int| 0 <= i < v.len() ==> (#[trigger] v[i]) == files[v[i].id].blob_create(v[i].id)
}

impl Meta {
    /// The columnar files that full text search has yet to process: those that are
    /// noted and still there, those of level 0 that are newer than what it covers,
    /// and those of the list.
    pub open spec fn pending(self, more: Seq<u64>) -> Set<u64> {
        let noted = self.fts_pending_l0_ids.to_set().filter(
            |id: u64| self.files.contains_key(id),
        );
        let newer = ids_with(
            self.files,
            |id: u64, fm: FileMeta|
                fm.file_type is Columnar && fm.level == 0 && fm.snap().version
                    > self.fts_l0_snap_version.version,
        );
        noted.union(newer).union(more.to_set())
    }

    /// The snapshot holds the shard.
    pub open spec fn snapshot_is(self, snap: pb::Snapshot) -> bool {
        &&& content(snap.outer_start) == self.range.start
        &&& content(snap.outer_end) == self.range.end
        &&& snap.inner_key_off == self.inner_key_off as u32
        &&& snap.properties matches Some(p) && p.shard_id == self.id && p.keys@.len()
            == p.values@.len() && set_all(Map::empty(), p) == self.props
        &&& snap.base_version == self.base_version
        &&& snap.data_sequence == self.data_sequence
        &&& snap.max_ts == self.max_ts
        &&& snap.columnar_table_ids@ == self.columnar_table_ids
        &&& snap.columnar_l2_snap_version == self.columnar_l2_snap_version.version
        &&& snap.schema_meta == self.schema.message()
        &&& snap.unconverted_l0s@.to_set() == self.unconverted_l0s
        &&& vectors_of(snap.vector_indexes@) == self.vector_indexes
        &&& index_pairs(snap.fts_indexes@) == self.fts_indexes
        &&& snap.fts_l0_snap_version == self.fts_l0_snap_version.version
        &&& snap.fts_l0_files@ == self.fts_l0_files
        &&& snap.fts_l1_files@ == self.fts_l1_files
        &&& snap.fts_l2_files@ == self.fts_l2_files
        &&& snap.fts_pending_l0_ids@.no_duplicates()
        &&& snap.fts_pending_l0_ids@.to_set() == if self.fts_indexes == Set::<
            (i64, i64),
        >::empty() {
            Set::empty()
        } else {
            self.pending(Seq::empty())
        }
        &&& lists_l0s(snap.l0_creates@, self.files)
        &&& lists_tables(snap.table_creates@, self.files)
        &&& lists_columnars(snap.columnar_creates@, self.files)
        &&& lists_blobs(snap.blob_creates@, self.files)
        &&& snap.txn_file_refs@.len() == 0
    }

    /// The change set holds the shard and its parents as snapshots.
    pub open spec fn change_set_is(self, cs: pb::ChangeSet) -> bool
        decreases self,
    {
        &&& cs.shard_id == self.id
        &&& cs.shard_ver == self.ver
        &&& cs.sequence == self.seq
        &&& cs.snapshot matches Some(snap) && self.snapshot_is(snap)
        &&& match (self.parent, cs.parent) {
            (Some(m), Some(parent)) => m.change_set_is(*parent),
            (None, None) => true,
            _ => false,
        }
    }

    /// No file is of a kind that has no place among the files of a shard.
    pub open spec fn files_listable(self) -> bool
        decreases self,
    {
        &&& forall|id: u64| #[trigger]
            self.files.contains_key(id) ==> !(self.files[id].file_type is TxnChunk)
                && !(self.files[id].file_type is Schema)
        &&& self.parent matches Some(m) ==> m.files_listable()
    }

    /// Without columnar files, and the parents too.
    pub open spec fn columnar_forgotten(self) -> Meta
        decreases self,
    {
        Meta {
            files: files_where(
                self.files,
                |fm: FileMeta| !(fm.file_type is Columnar) && !(fm.file_type is VectorIndex),
            ),
            columnar_table_ids: Seq::empty(),
            columnar_l2_snap_version: SnapVersion { version: 0 },
            unconverted_l0s: Set::empty(),
            vector_indexes: Seq::empty(),
            parent: match self.parent {
                Some(m) => Some(Box::new(m.columnar_forgotten())),
                None => None,
            },
            ..self
        }
    }
}

/// The offset that the list gives for the file, in its first entry for it.
pub open spec fn first_offset(s: Seq<(u64, u32)>, id: u64) -> Option<u32>
    decreases s.len(),
{
    if s.len() == 0 {
        None
    } else if first_offset(s.drop_last(), id) is Some {
        first_offset(s.drop_last(), id)
    } else if s.last().0 == id {
        Some(s.last().1)
    } else {
        None
    }
}

/// The file needs its table meta offset, which is missing.
pub open spec fn lacks_offset(fm: FileMeta) -> bool {
    fm.file_type is Sst && fm.remote_readable() && fm.table_meta_off == 0
}

/// The files, with the missing table meta offsets that the list gives.
pub open spec fn offsets_fixed(files: Map<u64, FileMeta>, s: Seq<(u64, u32)>) -> Map<u64, FileMeta> {
    Map::new(
        |id: u64| files.contains_key(id),
        |id: u64|
            match first_offset(s, id) {
                Some(off) => if lacks_offset(files[id]) {
                    FileMeta { table_meta_off: off, ..files[id] }
                } else {
                    files[id]
                },
                None => files[id],
            },
    )
}

/// The pairs of the set as a list.
fn pairs_list(v: &Vec<(i64, i64)>) -> (res: Vec<pb::TableIndexId>)
    ensures
        index_pairs(res@) == v@.to_set(),
{
    let mut res: Vec<pb::TableIndexId> = Vec::new();
    let mut i: usize = 0;
    while i < v.len()
        invariant
            i <= v@.len(),
            res@.len() == i,
            forall|j: int|
                0 <= j < i ==> (#[trigger] res@[j]).table_id == v@[j].0 && res@[j].index_id
                    == v@[j].1,
        decreases v@.len() - i,
    {
        res.push(pb::TableIndexId { table_id: v[i].0, index_id: v[i].1 });
        i = i + 1;
    }
    assert(Seq::new(res@.len(), |i: int| (res@[i].table_id, res@[i].index_id)) =~= v@);
    res
}

impl ShardMeta {
    /// The ids of the files of a kind.
    fn ids_of_l0s(&self) -> (res: Vec<u64>)
        ensures
            res@.no_duplicates(),
            res@.to_set() == ids_with(self@.files, |id: u64, fm: FileMeta| is_l0(fm)),
    {
        let keep = |id: u64, fm: &FileMeta| -> (b: bool)
            ensures
                b == is_l0(*fm),
            {
                fm.is_sst_file() && fm.level == 0
            };
        ids_where(&self.files, keep, Ghost(|id: u64, fm: FileMeta| is_l0(fm)))
    }

    /// The ids of the tables of the lower levels.
    fn ids_of_tables(&self) -> (res: Vec<u64>)
        ensures
            res@.no_duplicates(),
            res@.to_set() == ids_with(self@.files, |id: u64, fm: FileMeta| is_ln(fm)),
    {
        let keep = |id: u64, fm: &FileMeta| -> (b: bool)
            ensures
                b == is_ln(*fm),
            {
                fm.is_sst_file() && fm.level > 0
            };
        ids_where(&self.files, keep, Ghost(|id: u64, fm: FileMeta| is_ln(fm)))
    }

    fn list_l0s(&self) -> (res: Vec<pb::L0Create>)
        ensures
            lists_l0s(res@, self@.files),
    {
        let ids = self.ids_of_l0s();
        let mut res: Vec<pb::L0Create> = Vec::new();
        let mut i: usize = 0;
        while i < ids.len()
            invariant
                i <= ids@.len(),
                ids@.to_set() == ids_with(self@.files, |id: u64, fm: FileMeta| is_l0(fm)),
                res@.len() == i,
                forall|j: int|
                    0 <= j < i ==> (#[trigger] res@[j]) == self@.files[ids@[j]].l0_create(ids@[j]),
            decreases ids@.len() - i,
        {
            assert(ids@.to_set().contains(ids@[i as int]));
            res.push(self.files.get(&ids[i]).unwrap().to_l0_create(ids[i]));
            i = i + 1;
        }
        assert(Seq::new(res@.len(), |i: int| res@[i].id) =~= ids@);
        res
    }

    fn list_tables(&self) -> (res: Vec<pb::TableCreate>)
        ensures
            lists_tables(res@, self@.files),
    {
        let ids = self.ids_of_tables();
        let mut res: Vec<pb::TableCreate> = Vec::new();
        let mut i: usize = 0;
        while i < ids.len()
            invariant
                i <= ids@.len(),
                ids@.to_set() == ids_with(self@.files, |id: u64, fm: FileMeta| is_ln(fm)),
                res@.len() == i,
                forall|j: int|
                    0 <= j < i ==> (#[trigger] res@[j]) == self@.files[ids@[j]].table_create(
                        ids@[j],
                    ),
            decreases ids@.len() - i,
        {
            assert(ids@.to_set().contains(ids@[i as int]));
            res.push(self.files.get(&ids[i]).unwrap().to_table_create(ids[i]));
            i = i + 1;
        }
        assert(Seq::new(res@.len(), |i: int| res@[i].id) =~= ids@);
        res
    }

    fn list_columnars(&self) -> (res: Vec<pb::ColumnarCreate>)
        ensures
            lists_columnars(res@, self@.files),
    {
        let keep = |id: u64, fm: &FileMeta| -> (b: bool)
            ensures
                b == (fm.file_type is Columnar),
            {
                fm.is_columnar_file()
            };
        let ghost p = |id: u64, fm: FileMeta| fm.file_type is Columnar;
        let ids = ids_where(&self.files, keep, Ghost(p));
        let mut res: Vec<pb::ColumnarCreate> = Vec::new();
        let mut i: usize = 0;
        while i < ids.len()
            invariant
                i <= ids@.len(),
                ids@.to_set() == ids_with(self@.files, p),
                res@.len() == i,
                forall|j: int|
                    0 <= j < i ==> (#[trigger] res@[j]) == self@.files[ids@[j]].columnar_create(
                        ids@[j],
                    ),
            decreases ids@.len() - i,
        {
            assert(ids@.to_set().contains(ids@[i as int]));
            res.push(self.files.get(&ids[i]).unwrap().to_columnar_create(ids[i]));
            i = i + 1;
        }
        assert(Seq::new(res@.len(), |i: int| res@[i].id) =~= ids@);
        res
    }

    fn list_blobs(&self) -> (res: Vec<pb::BlobCreate>)
        ensures
            lists_blobs(res@, self@.files),
    {
        let keep = |id: u64, fm: &FileMeta| -> (b: bool)
            ensures
                b == (fm.file_type is Blob),
            {
                fm.file_type == FileType::Blob
            };
        let ghost p = |id: u64, fm: FileMeta| fm.file_type is Blob;
        let ids = ids_where(&self.files, keep, Ghost(p));
        let mut res: Vec<pb::BlobCreate> = Vec::new();
        let mut i: usize = 0;
        while i < ids.len()
            invariant
                i <= ids@.len(),
                ids@.to_set() == ids_with(self@.files, p),
                res@.len() == i,
                forall|j: int|
                    0 <= j < i ==> (#[trigger] res@[j]) == self@.files[ids@[j]].blob_create(ids@[j]),
            decreases ids@.len() - i,
        {
            assert(ids@.to_set().contains(ids@[i as int]));
            res.push(self.files.get(&ids[i]).unwrap().to_blob_create(ids[i]));
            i = i + 1;
        }
        assert(Seq::new(res@.len(), |i: int| res@[i].id) =~= ids@);
        res
    }

    /// The columnar files that full text search has yet to process, in no
    /// particular order.
    pub fn collect_fts_pending_l0_ids(&self, source_pending_l0_ids: &Vec<u64>) -> (res: Vec<u64>)
        ensures
            res@.no_duplicates(),
            res@.to_set() == self@.pending(source_pending_l0_ids@),
    {
        let files = &self.files;
        let covered = self.fts_l0_snap_version;
        let ghost p = |id: u64, fm: FileMeta|
            fm.file_type is Columnar && fm.level == 0 && fm.snap().version > covered.version;
        let keep = |id: u64, fm: &FileMeta| -> (b: bool)
            ensures
                b == p(id, *fm),
            {
                fm.is_columnar_file() && fm.level == 0 && fm.get_snap_version().version
                    > covered.version
            };
        let newer = ids_where(files, keep, Ghost(p));
        let still = |id: &u64| -> (b: bool)
            ensures
                b == files@.contains_key(*id),
            {
                files.contains_key(id)
            };
        let noted = retain_vec(
            copy_u64s(&self.fts_pending_l0_ids),
            still,
            Ghost(|id: u64| files@.contains_key(id)),
        );
        proof {
            lemma_filter_set(self.fts_pending_l0_ids@, |id: u64| files@.contains_key(id));
            lemma_concat_set(noted@, newer@);
            lemma_concat_set(noted@ + newer@, source_pending_l0_ids@);
        }
        let ghost noted_ids = noted@;
        let mut all = noted;
        all.extend_from_slice(newer.as_slice());
        assert(all@ =~= noted_ids + newer@);
        all.extend_from_slice(source_pending_l0_ids.as_slice());
        assert(all@ =~= noted_ids + newer@ + source_pending_l0_ids@);
        distinct_u64s(&all)
    }

    /// The snapshots of the shard and its parents list the unconverted tables as the shards do.
    pub open spec fn lists_unconverted(self, cs: pb::ChangeSet) -> bool
        decreases self,
    {
        &&& cs.snapshot matches Some(snap) && snap.unconverted_l0s@ == self.unconverted_l0s@
        &&& match (self.parent, cs.parent) {
            (Some(m), Some(parent)) => m.lists_unconverted(*parent),
            (None, None) => true,
            _ => false,
        }
    }

    /// The shard as a snapshot.
    fn new_snapshot_pb(&self) -> (res: pb::Snapshot)
        ensures
            self@.snapshot_is(res),
            res.unconverted_l0s@ == self.unconverted_l0s@,
    {
        let mut snap = pb::Snapshot::default();
        snap.outer_start = self.range.outer_start.clone();
        snap.outer_end = self.range.outer_end.clone();
        snap.inner_key_off = self.inner_key_off as u32;
        snap.properties = Some(self.properties.to_pb(self.id));
        snap.base_version = self.base_version;
        snap.data_sequence = self.data_sequence;
        snap.max_ts = self.max_ts;
        snap.columnar_table_ids = copy_i64s(&self.columnar_table_ids);
        snap.columnar_l2_snap_version = self.columnar_l2_snap_version.into_inner();
        self.schema.to_snapshot(&mut snap);
        snap.unconverted_l0s = copy_u64s(&self.unconverted_l0s);
        snap.vector_indexes = copy_vectors(&self.vector_indexes);
        snap.fts_indexes = pairs_list(&self.fts_indexes.to_vec());
        snap.fts_l0_snap_version = self.fts_l0_snap_version.into_inner();
        snap.fts_l0_files = copy_packed(&self.fts_l0_files);
        snap.fts_l1_files = copy_packed(&self.fts_l1_files);
        snap.fts_l2_files = copy_dedicated(&self.fts_l2_files);
        if !self.fts_indexes.is_empty() {
            snap.fts_pending_l0_ids = self.collect_fts_pending_l0_ids(&Vec::new());
        } else {
            assert(snap.fts_pending_l0_ids@ =~= Seq::empty());
            assert(snap.fts_pending_l0_ids@.to_set() =~= Set::empty());
        }
        snap.l0_creates = self.list_l0s();
        snap.table_creates = self.list_tables();
        snap.columnar_creates = self.list_columnars();
        snap.blob_creates = self.list_blobs();
        snap
    }

    /// The shard and its parents as snapshots. Files of vector indexes and of full
    /// text search are listed with their indexes.
    pub fn to_change_set(&self) -> (res: pb::ChangeSet)
        requires
            self@.files_listable(),
        ensures
            self@.change_set_is(res),
            self.lists_unconverted(res),
        decreases self,
    {
        proof {
            reveal_with_fuel(ShardMeta::model, 2);
        }
        let mut cs = pb::new_change_set(self.id, self.ver);
        cs.sequence = self.seq;
        cs.snapshot = Some(self.new_snapshot_pb());
        if let Some(parent) = &self.parent {
            cs.parent = Some(Box::new((&**parent).to_change_set()));
        }
        cs
    }

    /// What differs from the snapshot that was written last: the term, the
    /// sequence and the schema.
    pub fn new_snapshot_diff_pb(&self) -> (res: pb::ChangeSet)
        ensures
            res.shard_id == self@.id,
            res.shard_ver == self@.ver,
            res.sequence == self@.seq,
            res.snapshot_diff matches Some(snap) && {
                &&& snap.properties matches Some(p) && p.shard_id == self@.id && p.keys@.len()
                    == p.values@.len() && set_all(Map::empty(), p) == self@.props.restrict(
                    set![TERM_KEY@],
                )
                &&& snap.data_sequence == self@.data_sequence
                &&& snap.schema_meta == if self@.schema.known() {
                    Some(
                        pb::SchemaMeta {
                            file_id: self@.schema.schema_file_id,
                            version: self@.schema.schema_file_ver,
                            restore_version: self@.schema.schema_restore_ver,
                            keyspace_id: self@.range.keyspace_id,
                        },
                    )
                } else {
                    None
                }
            },
    {
        let mut cs = pb::new_change_set(self.id, self.ver);
        cs.sequence = self.seq;
        let mut snap = pb::Snapshot::default();
        let mut props = pb::Properties::default();
        props.shard_id = self.id;
        let ghost empty: Map<Seq<char>, Seq<u8>> = Map::empty();
        if let Some(term) = self.get_property(TERM_KEY) {
            props.keys.push(TERM_KEY.to_owned());
            props.values.push(term);
            proof {
                reveal_with_fuel(crate::properties::set_first, 2);
                assert(set_all(empty, props) =~= self@.props.restrict(set![TERM_KEY@]));
            }
        } else {
            assert(set_all(empty, props) =~= self@.props.restrict(set![TERM_KEY@]));
        }
        snap.properties = Some(props);
        snap.data_sequence = self.data_sequence;
        if self.schema.has_value() {
            snap.schema_meta = Some(
                pb::SchemaMeta {
                    file_id: self.schema.file_id(),
                    version: self.schema.file_ver(),
                    restore_version: self.schema.restore_ver(),
                    keyspace_id: self.range.keyspace_id,
                },
            );
        }
        cs.snapshot_diff = Some(snap);
        cs
    }

    /// The blob tables: id, lowest and highest key, and table meta offset; in no
    /// particular order.
    pub fn get_blob_files(&self) -> (res: Vec<(u64, Bytes, Bytes, u32)>)
        ensures
            ({
                let ids = Seq::new(res@.len(), |i: int| res@[i].0);
                &&& ids.no_duplicates()
                &&& ids.to_set() == ids_with(
                    self@.files,
                    |id: u64, fm: FileMeta| fm.file_type is Blob,
                )
            }),
            forall|i: int|
                0 <= i < res@.len() ==> (#[trigger] res@[i]) == (
                    res@[i].0,
                    self@.files[res@[i].0].smallest,
                    self@.files[res@[i].0].biggest,
                    self@.files[res@[i].0].table_meta_off,
                ),
    {
        let keep = |id: u64, fm: &FileMeta| -> (b: bool)
            ensures
                b == (fm.file_type is Blob),
            {
                fm.file_type == FileType::Blob
            };
        let ghost p = |id: u64, fm: FileMeta| fm.file_type is Blob;
        let ids = ids_where(&self.files, keep, Ghost(p));
        let mut res: Vec<(u64, Bytes, Bytes, u32)> = Vec::new();
        let mut i: usize = 0;
        while i < ids.len()
            invariant
                i <= ids@.len(),
                ids@.to_set() == ids_with(self@.files, p),
                res@.len() == i,
                forall|j: int|
                    0 <= j < i ==> (#[trigger] res@[j]) == (
                        ids@[j],
                        self@.files[ids@[j]].smallest,
                        self@.files[ids@[j]].biggest,
                        self@.files[ids@[j]].table_meta_off,
                    ),
            decreases ids@.len() - i,
        {
            assert(ids@.to_set().contains(ids@[i as int]));
            let fm = self.files.get(&ids[i]).unwrap();
            res.push((ids[i], fm.smallest.clone(), fm.biggest.clone(), fm.table_meta_off));
            i = i + 1;
        }
        assert(Seq::new(res@.len(), |i: int| res@[i].0) =~= ids@);
        res
    }

    /// The tables of the lower levels of committed data, which a change of the
    /// storage class moves; nothing where there is none.
    pub fn collect_files_for_storage_class(&self) -> (res: Option<pb::Snapshot>)
        ensures
            ({
                let moved = ids_with(
                    self@.files,
                    |id: u64, fm: FileMeta| is_ln(fm) && fm.cf == 0,
                );
                match res {
                    Some(snap) => {
                        let v = snap.table_creates@;
                        let ids = Seq::new(v.len(), |i: int| v[i].id);
                        &&& v.len() > 0
                        &&& ids.no_duplicates()
                        &&& ids.to_set() == moved
                        &&& forall|i: int|
                            0 <= i < v.len() ==> (#[trigger] v[i])
                                == self@.files[v[i].id].table_create(v[i].id)
                    },
                    None => moved == Set::<u64>::empty(),
                }
            }),
    {
        let ghost p = |id: u64, fm: FileMeta| is_ln(fm) && fm.cf == 0;
        let keep = |id: u64, fm: &FileMeta| -> (b: bool)
            ensures
                b == p(id, *fm),
            {
                fm.is_sst_file() && fm.level > 0 && fm.cf == 0
            };
        let ids = ids_where(&self.files, keep, Ghost(p));
        if ids.len() == 0 {
            assert(ids@.to_set() =~= Set::<u64>::empty());
            return None;
        }
        let mut v: Vec<pb::TableCreate> = Vec::new();
        let mut i: usize = 0;
        while i < ids.len()
            invariant
                i <= ids@.len(),
                ids@.to_set() == ids_with(self@.files, p),
                v@.len() == i,
                forall|j: int|
                    0 <= j < i ==> (#[trigger] v@[j]) == self@.files[ids@[j]].table_create(ids@[j]),
            decreases ids@.len() - i,
        {
            assert(ids@.to_set().contains(ids@[i as int]));
            v.push(self.files.get(&ids[i]).unwrap().to_table_create(ids[i]));
            i = i + 1;
        }
        assert(Seq::new(v@.len(), |i: int| v@[i].id) =~= ids@);
        let mut snap = pb::Snapshot::default();
        snap.table_creates = v;
        Some(snap)
    }

    /// Drops columnar files, from the parents too.
    pub fn clear_columnar_related_meta(&mut self)
        ensures
            final(self)@ == old(self)@.columnar_forgotten(),
        decreases *old(self),
    {
        let ghost before = *self;
        proof {
            reveal_with_fuel(ShardMeta::model, 2);
        }
        let keep = |fm: &FileMeta| -> (b: bool)
            ensures
                b == (!(fm.file_type is Columnar) && !(fm.file_type is VectorIndex)),
            {
                !fm.is_columnar_file() && !fm.is_vector_index_file()
            };
        retain_files(
            &mut self.files,
            keep,
            Ghost(|fm: FileMeta| !(fm.file_type is Columnar) && !(fm.file_type is VectorIndex)),
        );
        self.columnar_table_ids.clear();
        self.columnar_l2_snap_version = SnapVersion::zero();
        self.unconverted_l0s.clear();
        self.vector_indexes.clear();
        let mut parent: Option<Box<ShardMeta>> = None;
        std::mem::swap(&mut parent, &mut self.parent);
        if let Some(mut m) = parent {
            (&mut *m).clear_columnar_related_meta();
            self.parent = Some(m);
        }
        proof {
            assert(vectors_of(self.vector_indexes@) =~= Seq::empty());
            assert(self.unconverted_l0s@.to_set() =~= Set::empty());
            assert(self@ =~= before@.columnar_forgotten());
        }
    }

    /// Sets missing table meta offsets from what the open tables say, in the order
    /// in which they are listed.
    pub fn fix_table_meta_offset(&mut self, offsets: &Vec<(u64, u32)>)
        ensures
            final(self)@ == (Meta { files: offsets_fixed(old(self)@.files, offsets@), ..old(self)@ }),
    {
        let ghost before = self@;
        let ghost start = *self;
        let mut i: usize = 0;
        assert(offsets@.take(0) =~= Seq::empty());
        assert(self.files@ =~= offsets_fixed(before.files, offsets@.take(0)));
        let mut done: Vec<u64> = Vec::new();
        while i < offsets.len()
            invariant
                i <= offsets@.len(),
                before == start@,
                *self == (ShardMeta { files: self.files, ..start }),
                self.files@ == offsets_fixed(before.files, offsets@.take(i as int)),
                forall|id: u64| #[trigger]
                    done@.contains(id) <==> first_offset(offsets@.take(i as int), id) is Some,
            decreases offsets@.len() - i,
        {
            let ghost s = offsets@.take(i as int);
            let ghost t = offsets@.take(i + 1);
            assert(t.drop_last() =~= s);
            let id = offsets[i].0;
            let ghost now = self.files@;
            let ghost done_before = done@;
            if !contains_u64(&done, id) {
                if let Some(fm) = self.files.get(&id) {
                    if fm.is_sst_file() && fm.can_use_ia() && fm.table_meta_off == 0 {
                        let mut fixed = fm.clone();
                        fixed.table_meta_off = offsets[i].1;
                        self.files.insert(id, fixed);
                    }
                }
                done.push(id);
                proof {
                    assert forall|k: u64| #[trigger]
                        done@.contains(k) <==> done_before.contains(k) || k == id by {
                        if done_before.contains(k) {
                            let j = choose|j: int|
                                0 <= j < done_before.len() && done_before[j] == k;
                            assert(done@[j] == k);
                        }
                        assert(done@[done_before.len() as int] == id);
                    }
                }
            }
            assert(self.files@ =~= offsets_fixed(before.files, t));
            i = i + 1;
        }
        assert(offsets@.take(i as int) =~= offsets@);
    }
}

/// The ids without repeats, in the order in which they come first.
pub fn distinct_u64s(v: &Vec<u64>) -> (res: Vec<u64>)
    ensures
        res@.no_duplicates(),
        res@.to_set() == v@.to_set(),
{
    let mut res: Vec<u64> = Vec::new();
    let mut i: usize = 0;
    while i < v.len()
        invariant
            i <= v@.len(),
            res@.no_duplicates(),
            forall|x: u64| #[trigger] res@.contains(x) <==> v@.take(i as int).contains(x),
        decreases v@.len() - i,
    {
        let ghost before = res@;
        let x = v[i];
        if !contains_u64(&res, x) {
            res.push(x);
        }
        proof {
            assert forall|y: u64| #[trigger] res@.contains(y) <==> v@.take(i + 1).contains(y) by {
                let t = v@.take(i as int);
                let u = v@.take(i + 1);
                assert(u =~= t.push(x));
                crate::lists::lemma_push_set(t, x);
                assert(u.to_set().contains(y) <==> t.to_set().contains(y) || y == x);
                if res@ != before {
                    crate::lists::lemma_push_set(before, x);
                    assert(res@.to_set().contains(y) <==> before.to_set().contains(y) || y == x);
                }
            }
        }
        i = i + 1;
    }
    proof {
        assert(v@.take(i as int) =~= v@);
        assert(res@.to_set() =~= v@.to_set());
    }
    res
}

/// The ids of the files of a list that are added to a map.
proof fn lemma_with_files_dom(m: Map<u64, FileMeta>, s: Seq<(u64, FileMeta)>, id: u64)
    ensures
        with_files(m, s).contains_key(id) <==> m.contains_key(id) || exists|i: int|
            0 <= i < s.len() && (#[trigger] s[i]).0 == id,
    decreases s.len(),
{
    if s.len() > 0 {
        let t = s.drop_last();
        lemma_with_files_dom(m, t, id);
        if exists|i: int| 0 <= i < t.len() && (#[trigger] t[i]).0 == id {
            let i = choose|i: int| 0 <= i < t.len() && (#[trigger] t[i]).0 == id;
            assert(s[i].0 == id);
        }
        if exists|i: int| 0 <= i < s.len() && (#[trigger] s[i]).0 == id {
            let i = choose|i: int| 0 <= i < s.len() && (#[trigger] s[i]).0 == id;
            if i < t.len() {
                assert(t[i].0 == id);
            }
        }
        assert(s[s.len() - 1] == s.last());
    }
}

/// A shard that is read back from its snapshot has the tables, columnar files and
/// blob tables that it had, where it has no vector index.
pub proof fn law_snapshot_restores_files(m: Meta, cs: pb::ChangeSet, engine_id: u64, id: u64)
    requires
        m.change_set_is(cs),
        m.vector_indexes.len() == 0,
    ensures
        Meta::of(engine_id, cs).files.contains_key(id) <==> m.files.contains_key(id) && (
        m.files[id].file_type is Sst || m.files[id].file_type is Columnar
            || m.files[id].file_type is Blob),
{
    let snap = cs.snapshot->0;
    let empty: Map<u64, FileMeta> = Map::empty();
    assert(vectors_of(snap.vector_indexes@).len() == 0);
    assert(snap.vector_indexes@.len() == 0);
    let e0 = l0_entries_of(snap.l0_creates@);
    let e1 = blob_entries_of(snap.blob_creates@);
    let e2 = table_entries_of(snap.table_creates@);
    let e3 = columnar_entries_of(snap.columnar_creates@);
    let f0 = with_files(empty, e0);
    let f1 = with_files(f0, e1);
    let f2 = with_files(f1, e2);
    let f3 = with_files(f2, e3);
    lemma_with_files_dom(empty, e0, id);
    lemma_with_files_dom(f0, e1, id);
    lemma_with_files_dom(f1, e2, id);
    lemma_with_files_dom(f2, e3, id);
    let l0 = snap.l0_creates@;
    let bl = snap.blob_creates@;
    let tb = snap.table_creates@;
    let co = snap.columnar_creates@;
    let i0 = Seq::new(l0.len(), |i: int| l0[i].id);
    let i1 = Seq::new(bl.len(), |i: int| bl[i].id);
    let i2 = Seq::new(tb.len(), |i: int| tb[i].id);
    let i3 = Seq::new(co.len(), |i: int| co[i].id);
    assert(i0.contains(id) <==> exists|i: int| 0 <= i < e0.len() && (#[trigger] e0[i]).0 == id) by {
        if i0.contains(id) {
            let i = choose|i: int| 0 <= i < i0.len() && i0[i] == id;
            assert(e0[i].0 == id);
        }
        if exists|i: int| 0 <= i < e0.len() && (#[trigger] e0[i]).0 == id {
            let i = choose|i: int| 0 <= i < e0.len() && (#[trigger] e0[i]).0 == id;
            assert(i0[i] == id);
        }
    }
    assert(i1.contains(id) <==> exists|i: int| 0 <= i < e1.len() && (#[trigger] e1[i]).0 == id) by {
        if i1.contains(id) {
            let i = choose|i: int| 0 <= i < i1.len() && i1[i] == id;
            assert(e1[i].0 == id);
        }
        if exists|i: int| 0 <= i < e1.len() && (#[trigger] e1[i]).0 == id {
            let i = choose|i: int| 0 <= i < e1.len() && (#[trigger] e1[i]).0 == id;
            assert(i1[i] == id);
        }
    }
    assert(i2.contains(id) <==> exists|i: int| 0 <= i < e2.len() && (#[trigger] e2[i]).0 == id) by {
        if i2.contains(id) {
            let i = choose|i: int| 0 <= i < i2.len() && i2[i] == id;
            assert(e2[i].0 == id);
        }
        if exists|i: int| 0 <= i < e2.len() && (#[trigger] e2[i]).0 == id {
            let i = choose|i: int| 0 <= i < e2.len() && (#[trigger] e2[i]).0 == id;
            assert(i2[i] == id);
        }
    }
    assert(i3.contains(id) <==> exists|i: int| 0 <= i < e3.len() && (#[trigger] e3[i]).0 == id) by {
        if i3.contains(id) {
            let i = choose|i: int| 0 <= i < i3.len() && i3[i] == id;
            assert(e3[i].0 == id);
        }
        if exists|i: int| 0 <= i < e3.len() && (#[trigger] e3[i]).0 == id {
            let i = choose|i: int| 0 <= i < e3.len() && (#[trigger] e3[i]).0 == id;
            assert(i3[i] == id);
        }
    }
    assert(i0.to_set().contains(id) <==> i0.contains(id));
    assert(i1.to_set().contains(id) <==> i1.contains(id));
    assert(i2.to_set().contains(id) <==> i2.contains(id));
    assert(i3.to_set().contains(id) <==> i3.contains(id));
    assert(snap_files(snap) == f3);
}

/// A shard that is read back from its snapshot has the range, the properties but
/// for a request to compact, the numbers and the indexes that it had.
pub proof fn law_snapshot_restores_shard(m: Meta, cs: pb::ChangeSet)
    requires
        m.change_set_is(cs),
        m.range == crate::range::Range::between(m.range.start, m.range.end),
        m.inner_key_off <= u32::MAX,
        m.schema.valid() || m.schema.schema_restore_ver > 0 || m.schema
            == crate::schema_meta::SchemaFileMeta::none(),
    ensures
        ({
            let r = Meta::of(m.engine_id, cs);
            &&& r.id == m.id
            &&& r.ver == m.ver
            &&& r.seq == m.seq
            &&& r.range == m.range
            &&& r.inner_key_off == m.inner_key_off
            &&& r.props == m.props.remove(crate::properties::MANUAL_MAJOR_COMPACTION@)
            &&& r.base_version == m.base_version
            &&& r.data_sequence == m.data_sequence
            &&& r.max_ts == m.max_ts
            &&& r.schema == m.schema
            &&& r.columnar_table_ids == m.columnar_table_ids
            &&& r.unconverted_l0s == m.unconverted_l0s
            &&& r.vector_indexes == m.vector_indexes
            &&& r.columnar_l2_snap_version == m.columnar_l2_snap_version
            &&& r.fts_l0_snap_version == m.fts_l0_snap_version
            &&& r.fts_indexes == m.fts_indexes
            &&& r.fts_l0_files == m.fts_l0_files
            &&& r.fts_l1_files == m.fts_l1_files
            &&& r.fts_l2_files == m.fts_l2_files
        }),
{
}

} // verus!
