//! What a shard consists of: its range, files, properties and indexes.
pub mod apply;
pub mod duplicate;
pub mod file_laws;
pub mod laws;
pub mod merge;
pub mod part_laws;
pub mod seen_laws;
pub mod snapshot;
pub mod split;

use std::collections::HashMap;

use bytes::Bytes;
use vstd::prelude::*;

use crate::bound::{Bound, BoundedDataSet, DataBound};
use crate::buf::content;
use crate::file_meta::{FileMeta, SnapVersion};
use crate::files::{
    blob_entries, blob_entries_of, columnar_entries, columnar_entries_of, file_ids, insert_files,
    insert_vectors, l0_entries, l0_entries_of, table_entries, table_entries_of, with_files,
    with_vectors,
};
use crate::keyspace::{is_whole_keyspace_range, whole_keyspace, KEYSPACE_PREFIX_LEN};
use crate::lists::{copy_i64s, copy_u64s, IndexSet};
use crate::pb;
use crate::properties::{
    opt_props_valid, props_valid, set_all, set_opt, value_of, Properties, MANUAL_MAJOR_COMPACTION,
};
use crate::range::{Range, ShardRange};
use crate::schema_meta::SchemaFileMeta;
use crate::txn_locks::{locks_of, Locks, TxnFileLocks};
use crate::vectors::{copy_vectors, vectors_of, Vector};

verus! {

broadcast use vstd::std_specs::hash::group_hash_axioms;

/// What a shard consists of.
#[verifier::ext_equal]
pub struct Meta {
    /// Store that holds the shard.
    pub engine_id: u64,
    /// Shard id.
    pub id: u64,
    /// Version of the range.
    pub ver: u64,
    /// Range.
    pub range: Range,
    /// How many leading bytes inner keys drop.
    pub inner_key_off: usize,
    /// Sequence of the last change.
    pub seq: u64,
    /// Files by id.
    pub files: Map<u64, FileMeta>,
    /// Properties by key.
    pub props: Map<Seq<char>, Seq<u8>>,
    /// What is added to a sequence to make a version.
    pub base_version: u64,
    /// Sequence of the last data in the files.
    pub data_sequence: u64,
    /// Highest timestamp in the files.
    pub max_ts: u64,
    /// The shard that this one was made from, until it is flushed.
    pub parent: Option<Box<Meta>>,
    /// Schema file.
    pub schema: SchemaFileMeta,
    /// Tables that are kept as columns.
    pub columnar_table_ids: Seq<i64>,
    /// Tables of level 0 that have no columnar file yet.
    pub unconverted_l0s: Set<u64>,
    /// Vector indexes.
    pub vector_indexes: Seq<Vector>,
    /// Version of the columnar files of level 2.
    pub columnar_l2_snap_version: SnapVersion,
    /// Version that the full text files of level 0 cover.
    pub fts_l0_snap_version: SnapVersion,
    /// Full text indexes that are tracked.
    pub fts_indexes: Set<(i64, i64)>,
    /// Full text files of level 0.
    pub fts_l0_files: Seq<pb::FtsPackedFileInfo>,
    /// Full text files of level 1.
    pub fts_l1_files: Seq<pb::FtsPackedFileInfo>,
    /// Full text files of level 2.
    pub fts_l2_files: Seq<pb::FtsDedFileInfo>,
    /// Columnar files that full text search has yet to process.
    pub fts_pending_l0_ids: Seq<u64>,
    /// Locks of transaction files.
    pub locks: Locks,
}

/// The shard that a change set holds as a whole.
pub open spec fn any_snap(cs: pb::ChangeSet) -> Option<pb::Snapshot> {
    if cs.snapshot is Some {
        cs.snapshot
    } else if cs.initial_flush is Some {
        cs.initial_flush
    } else {
        cs.restore_shard
    }
}

/// The change set and its parents hold whole shards, with a value for every
/// property.
pub open spec fn holds_shard(cs: pb::ChangeSet) -> bool
    decreases cs,
{
    &&& any_snap(cs) matches Some(snap) && opt_props_valid(snap.properties)
    &&& match cs.parent {
        Some(parent) => holds_shard(*parent),
        None => true,
    }
}

/// The files of a snapshot.
pub open spec fn snap_files(snap: pb::Snapshot) -> Map<u64, FileMeta> {
    with_vectors(
        with_files(
            with_files(
                with_files(
                    with_files(Map::empty(), l0_entries_of(snap.l0_creates@)),
                    blob_entries_of(snap.blob_creates@),
                ),
                table_entries_of(snap.table_creates@),
            ),
            columnar_entries_of(snap.columnar_creates@),
        ),
        snap.vector_indexes@,
    )
}

/// Pairs of a table and an index.
pub open spec fn index_pairs(s: Seq<pb::TableIndexId>) -> Set<(i64, i64)> {
    Seq::new(s.len(), |i: int| (s[i].table_id, s[i].index_id)).to_set()
}

impl Meta {
    /// A shard with nothing in it.
    pub open spec fn empty() -> Meta {
        Meta {
            engine_id: 0,
            id: 0,
            ver: 0,
            range: Range { start: Seq::empty(), end: Seq::empty(), keyspace_id: 0 },
            inner_key_off: 0,
            seq: 0,
            files: Map::empty(),
            props: Map::empty(),
            base_version: 0,
            data_sequence: 0,
            max_ts: 0,
            parent: None,
            schema: SchemaFileMeta::none(),
            columnar_table_ids: Seq::empty(),
            unconverted_l0s: Set::empty(),
            vector_indexes: Seq::empty(),
            columnar_l2_snap_version: SnapVersion { version: 0 },
            fts_l0_snap_version: SnapVersion { version: 0 },
            fts_indexes: Set::empty(),
            fts_l0_files: Seq::empty(),
            fts_l1_files: Seq::empty(),
            fts_l2_files: Seq::empty(),
            fts_pending_l0_ids: Seq::empty(),
            locks: Locks { seq: 0, prefixes: Map::empty() },
        }
    }

    /// The shard that a change set holds as a whole.
    pub open spec fn of(engine_id: u64, cs: pb::ChangeSet) -> Meta
        decreases cs,
    {
        let snap = any_snap(cs)->0;
        Meta {
            engine_id,
            id: cs.shard_id,
            ver: cs.shard_ver,
            range: Range::between(content(snap.outer_start), content(snap.outer_end)),
            inner_key_off: snap.inner_key_off as usize,
            seq: cs.sequence,
            files: snap_files(snap),
            props: set_opt(Map::empty(), snap.properties).remove(MANUAL_MAJOR_COMPACTION@),
            base_version: snap.base_version,
            data_sequence: snap.data_sequence,
            max_ts: snap.max_ts,
            parent: match cs.parent {
                Some(parent) => Some(Box::new(Meta::of(engine_id, *parent))),
                None => None,
            },
            schema: SchemaFileMeta::of_opt(snap.schema_meta),
            columnar_table_ids: snap.columnar_table_ids@,
            unconverted_l0s: snap.unconverted_l0s@.to_set(),
            vector_indexes: vectors_of(snap.vector_indexes@),
            columnar_l2_snap_version: SnapVersion { version: snap.columnar_l2_snap_version },
            fts_l0_snap_version: SnapVersion { version: snap.fts_l0_snap_version },
            fts_indexes: index_pairs(snap.fts_indexes@),
            fts_l0_files: snap.fts_l0_files@,
            fts_l1_files: snap.fts_l1_files@,
            fts_l2_files: snap.fts_l2_files@,
            fts_pending_l0_ids: snap.fts_pending_l0_ids@,
            locks: Locks {
                seq: snap.data_sequence,
                prefixes: locks_of(snap.txn_file_refs@),
            },
        }
    }

    /// A part of a split shard, before any file is given to it.
    pub open spec fn of_split(
        id: u64,
        ver: u64,
        start: Seq<u8>,
        end: Seq<u8>,
        props: pb::Properties,
        parent: Meta,
    ) -> Meta {
        Meta {
            id,
            ver,
            range: Range::between(start, end),
            inner_key_off: if whole_keyspace(start, end) {
                KEYSPACE_PREFIX_LEN
            } else {
                parent.inner_key_off
            },
            parent: Some(Box::new(parent)),
            props: set_all(Map::empty(), props),
            ..Meta::empty()
        }
    }

    /// Version of the last data in the files.
    pub open spec fn version(self) -> int {
        self.base_version + self.data_sequence
    }

    /// Log index up to which data is in files.
    pub open spec fn persisted(self) -> u64 {
        match self.parent {
            Some(parent) => if parent.id == self.id {
                parent.data_sequence
            } else {
                self.data_sequence
            },
            None => self.data_sequence,
        }
    }
}

/// What a shard consists of.
pub struct ShardMeta {
    /// Store that holds the shard.
    pub engine_id: u64,
    /// Shard id.
    pub id: u64,
    /// Version of the range.
    pub ver: u64,
    /// Range.
    pub range: ShardRange,
    /// How many leading bytes inner keys drop.
    pub inner_key_off: usize,
    /// Sequence of the last change. It moves with the files and with nothing else.
    pub seq: u64,
    /// Files by id.
    pub files: HashMap<u64, FileMeta>,
    /// Properties.
    pub properties: Properties,
    /// What is added to a sequence to make a version.
    pub base_version: u64,
    /// Sequence of the last data in the files.
    pub data_sequence: u64,
    /// Highest timestamp in the files.
    pub max_ts: u64,
    /// The shard that this one was made from, until it is flushed.
    pub parent: Option<Box<ShardMeta>>,
    /// Schema file.
    pub schema: SchemaFileMeta,
    /// Tables that are kept as columns.
    pub columnar_table_ids: Vec<i64>,
    /// Tables of level 0 that have no columnar file yet.
    pub unconverted_l0s: Vec<u64>,
    /// Vector indexes.
    pub vector_indexes: Vec<pb::VectorIndex>,
    /// Version of the columnar files of level 2.
    pub columnar_l2_snap_version: SnapVersion,
    /// Version that the full text files of level 0 cover.
    pub fts_l0_snap_version: SnapVersion,
    /// Full text indexes that are tracked.
    pub fts_indexes: IndexSet,
    /// Full text files of level 0.
    pub fts_l0_files: Vec<pb::FtsPackedFileInfo>,
    /// Full text files of level 1.
    pub fts_l1_files: Vec<pb::FtsPackedFileInfo>,
    /// Full text files of level 2.
    pub fts_l2_files: Vec<pb::FtsDedFileInfo>,
    /// Columnar files that full text search has yet to process.
    pub fts_pending_l0_ids: Vec<u64>,
    /// Locks of transaction files.
    pub txn_file_locks: TxnFileLocks,
}

impl ShardMeta {
    /// What the shard consists of.
    pub open spec fn model(self) -> Meta
        decreases self,
    {
        Meta {
            engine_id: self.engine_id,
            id: self.id,
            ver: self.ver,
            range: self.range@,
            inner_key_off: self.inner_key_off,
            seq: self.seq,
            files: self.files@,
            props: self.properties@,
            base_version: self.base_version,
            data_sequence: self.data_sequence,
            max_ts: self.max_ts,
            parent: match self.parent {
                Some(parent) => Some(Box::new(parent.model())),
                None => None,
            },
            schema: self.schema,
            columnar_table_ids: self.columnar_table_ids@,
            unconverted_l0s: self.unconverted_l0s@.to_set(),
            vector_indexes: vectors_of(self.vector_indexes@),
            columnar_l2_snap_version: self.columnar_l2_snap_version,
            fts_l0_snap_version: self.fts_l0_snap_version,
            fts_indexes: self.fts_indexes@,
            fts_l0_files: self.fts_l0_files@,
            fts_l1_files: self.fts_l1_files@,
            fts_l2_files: self.fts_l2_files@,
            fts_pending_l0_ids: self.fts_pending_l0_ids@,
            locks: self.txn_file_locks@,
        }
    }
}

impl View for ShardMeta {
    type V = Meta;

    open spec fn view(&self) -> Meta {
        self.model()
    }
}

impl Default for ShardMeta {
    fn default() -> (res: Self)
        ensures
            res@ == Meta::empty(),
    {
        let res = ShardMeta {
            engine_id: 0,
            id: 0,
            ver: 0,
            range: ShardRange::default(),
            inner_key_off: 0,
            seq: 0,
            files: HashMap::new(),
            properties: Properties::new(),
            base_version: 0,
            data_sequence: 0,
            max_ts: 0,
            parent: None,
            schema: SchemaFileMeta::default(),
            columnar_table_ids: Vec::new(),
            unconverted_l0s: Vec::new(),
            vector_indexes: Vec::new(),
            columnar_l2_snap_version: SnapVersion::zero(),
            fts_l0_snap_version: SnapVersion::zero(),
            fts_indexes: IndexSet::new(),
            fts_l0_files: Vec::new(),
            fts_l1_files: Vec::new(),
            fts_l2_files: Vec::new(),
            fts_pending_l0_ids: Vec::new(),
            txn_file_locks: TxnFileLocks::default(),
        };
        assert(res@ =~= Meta::empty());
        res
    }
}

impl BoundedDataSet for ShardMeta {
    open spec fn bound(&self) -> Bound {
        self.range@.inner_bound()
    }

    fn data_bound(&self) -> (res: DataBound<'_>) {
        self.range.data_bound()
    }
}

/// A copy of the files.
pub fn copy_packed(v: &Vec<pb::FtsPackedFileInfo>) -> (res: Vec<pb::FtsPackedFileInfo>)
    ensures
        res@ == v@,
{
    let res = v.clone();
    assert(res@ =~= v@);
    res
}

/// A copy of the files.
pub fn copy_dedicated(v: &Vec<pb::FtsDedFileInfo>) -> (res: Vec<pb::FtsDedFileInfo>)
    ensures
        res@ == v@,
{
    let res = v.clone();
    assert(res@ =~= v@);
    res
}

/// The shard that a change set holds as a whole.
pub fn get_any_snap_from_changeset(cs: &pb::ChangeSet) -> (res: Option<&pb::Snapshot>)
    ensures
        match res {
            Some(snap) => any_snap(*cs) == Some(*snap),
            None => any_snap(*cs) is None,
        },
{
    match (&cs.snapshot, &cs.initial_flush, &cs.restore_shard) {
        (Some(snap), _, _) => Some(snap),
        (None, Some(snap), _) => Some(snap),
        (None, None, Some(snap)) => Some(snap),
        (None, None, None) => None,
    }
}

/// The pairs of the list as a set.
pub fn index_set(v: &Vec<pb::TableIndexId>) -> (res: IndexSet)
    ensures
        res@ == index_pairs(v@),
{
    let mut res = IndexSet::new();
    let mut i: usize = 0;
    assert(index_pairs(v@.take(0)) =~= Set::empty());
    while i < v.len()
        invariant
            i <= v@.len(),
            res@ == index_pairs(v@.take(i as int)),
        decreases v@.len() - i,
    {
        res.insert((v[i].table_id, v[i].index_id));
        proof {
            lemma_index_pairs_step(v@, i as int);
        }
        i = i + 1;
    }
    assert(v@.take(i as int) =~= v@);
    res
}

/// One pair more.
pub proof fn lemma_index_pairs_step(s: Seq<pb::TableIndexId>, i: int)
    requires
        0 <= i < s.len(),
    ensures
        index_pairs(s.take(i + 1)) == index_pairs(s.take(i)).insert((s[i].table_id, s[i].index_id)),
{
    let a = Seq::new(i as nat, |j: int| (s.take(i)[j].table_id, s.take(i)[j].index_id));
    let b = Seq::new((i + 1) as nat, |j: int| (s.take(i + 1)[j].table_id, s.take(i + 1)[j].index_id));
    let x = (s[i].table_id, s[i].index_id);
    assert(b =~= a.push(x));
    assert forall|y: (i64, i64)| b.contains(y) <==> a.contains(y) || y == x by {
        if a.contains(y) {
            let j = choose|j: int| 0 <= j < a.len() && a[j] == y;
            assert(b[j] == y);
        }
        assert(b[i] == x);
    }
    assert(b.to_set() =~= a.to_set().insert(x));
}

impl ShardMeta {
    /// A copy.
    pub fn copy(&self) -> (res: Self)
        ensures
            res@ == self@,
            res.unconverted_l0s@ == self.unconverted_l0s@,
        decreases self,
    {
        let parent: Option<Box<ShardMeta>> = match &self.parent {
            Some(parent) => Some(Box::new((&**parent).copy())),
            None => None,
        };
        let res = ShardMeta {
            engine_id: self.engine_id,
            id: self.id,
            ver: self.ver,
            range: self.range.clone(),
            inner_key_off: self.inner_key_off,
            seq: self.seq,
            files: self.files.clone(),
            properties: self.properties.clone(),
            base_version: self.base_version,
            data_sequence: self.data_sequence,
            max_ts: self.max_ts,
            parent,
            schema: self.schema,
            columnar_table_ids: copy_i64s(&self.columnar_table_ids),
            unconverted_l0s: copy_u64s(&self.unconverted_l0s),
            vector_indexes: copy_vectors(&self.vector_indexes),
            columnar_l2_snap_version: self.columnar_l2_snap_version,
            fts_l0_snap_version: self.fts_l0_snap_version,
            fts_indexes: self.fts_indexes.copy(),
            fts_l0_files: copy_packed(&self.fts_l0_files),
            fts_l1_files: copy_packed(&self.fts_l1_files),
            fts_l2_files: copy_dedicated(&self.fts_l2_files),
            fts_pending_l0_ids: copy_u64s(&self.fts_pending_l0_ids),
            txn_file_locks: self.txn_file_locks.copy(),
        };
        assert(res@ =~= self@);
        res
    }

    /// The shard that a change set holds as a whole.
    pub fn new(engine_id: u64, cs: &pb::ChangeSet) -> (res: Self)
        requires
            holds_shard(*cs),
        ensures
            res@ == Meta::of(engine_id, *cs),
            res.unconverted_l0s@ == any_snap(*cs)->0.unconverted_l0s@,
        decreases cs,
    {
        let parent: Option<Box<ShardMeta>> = match &cs.parent {
            Some(parent) => Some(Box::new(Self::new(engine_id, &**parent))),
            None => None,
        };
        let snap = get_any_snap_from_changeset(cs).unwrap();
        let mut properties = Properties::new();
        if let Some(props) = &snap.properties {
            properties = properties.apply_pb(props);
        }
        properties.remove(MANUAL_MAJOR_COMPACTION);
        let mut files: HashMap<u64, FileMeta> = HashMap::new();
        insert_files(&mut files, &l0_entries(&snap.l0_creates));
        insert_files(&mut files, &blob_entries(&snap.blob_creates));
        insert_files(&mut files, &table_entries(&snap.table_creates));
        insert_files(&mut files, &columnar_entries(&snap.columnar_creates));
        insert_vectors(&mut files, &snap.vector_indexes);
        let res = ShardMeta {
            engine_id,
            id: cs.shard_id,
            ver: cs.shard_ver,
            range: ShardRange::from_snap(snap),
            inner_key_off: snap.inner_key_off as usize,
            seq: cs.sequence,
            files,
            properties,
            base_version: snap.base_version,
            data_sequence: snap.data_sequence,
            max_ts: snap.max_ts,
            parent,
            schema: SchemaFileMeta::from_snapshot(snap),
            columnar_table_ids: copy_i64s(&snap.columnar_table_ids),
            unconverted_l0s: copy_u64s(&snap.unconverted_l0s),
            vector_indexes: copy_vectors(&snap.vector_indexes),
            columnar_l2_snap_version: SnapVersion { version: snap.columnar_l2_snap_version },
            fts_l0_snap_version: SnapVersion { version: snap.fts_l0_snap_version },
            fts_indexes: index_set(&snap.fts_indexes),
            fts_l0_files: copy_packed(&snap.fts_l0_files),
            fts_l1_files: copy_packed(&snap.fts_l1_files),
            fts_l2_files: copy_dedicated(&snap.fts_l2_files),
            fts_pending_l0_ids: copy_u64s(&snap.fts_pending_l0_ids),
            txn_file_locks: TxnFileLocks::from_refs(snap.data_sequence, &snap.txn_file_refs),
        };
        assert(res@ =~= Meta::of(engine_id, *cs));
        res
    }

    /// A part of a split shard, before any file is given to it.
    pub fn new_split(
        id: u64,
        ver: u64,
        start: &[u8],
        end: &[u8],
        props: &pb::Properties,
        parent: Box<ShardMeta>,
    ) -> (res: Self)
        requires
            props_valid(*props),
        ensures
            res@ == Meta::of_split(id, ver, start@, end@, *props, parent@),
    {
        let inner_key_off: usize = if is_whole_keyspace_range(start, end) {
            KEYSPACE_PREFIX_LEN
        } else {
            parent.inner_key_off
        };
        let mut res = ShardMeta::default();
        res.id = id;
        res.ver = ver;
        res.range = ShardRange::new(start, end);
        res.inner_key_off = inner_key_off;
        res.properties = Properties::new().apply_pb(props);
        res.parent = Some(parent);
        assert(res@ =~= Meta::of_split(id, ver, start@, end@, *props, parent@));
        res
    }

    /// Whether the shard no longer needs its parent.
    pub fn initial_flushed(&self) -> (res: bool)
        ensures
            res == (self@.parent is None),
    {
        self.parent.is_none()
    }

    /// Adds a file.
    pub fn add_file(&mut self, id: u64, file_meta: FileMeta)
        ensures
            final(self)@ == (Meta { files: old(self)@.files.insert(id, file_meta), ..old(self)@ }),
    {
        self.files.insert(id, file_meta);
    }

    /// The value of a property.
    pub fn get_property(&self, key: &str) -> (res: Option<Bytes>)
        ensures
            value_of(self@.props, key@, res),
    {
        self.properties.get(key)
    }

    /// Sets a property.
    pub fn set_property(&mut self, key: &str, value: &[u8])
        ensures
            final(self)@ == (Meta { props: old(self)@.props.insert(key@, value@), ..old(self)@ }),
    {
        self.properties.set(key, value);
    }

    /// Sets a property, if there is a value.
    pub fn set_property_opt(&mut self, key: &str, value: Option<&[u8]>)
        ensures
            match value {
                Some(v) => final(self)@ == (Meta {
                    props: old(self)@.props.insert(key@, v@),
                    ..old(self)@
                }),
                None => final(self)@ == old(self)@,
            },
    {
        if let Some(v) = value {
            self.set_property(key, v);
        }
    }

    /// Sets a property.
    pub fn set_property_bytes(&mut self, key: &str, value: Bytes)
        ensures
            final(self)@ == (Meta {
                props: old(self)@.props.insert(key@, content(value)),
                ..old(self)@
            }),
    {
        self.properties.set_bytes(key, value);
    }

    /// Removes a property and gives the value that it had.
    pub fn del_property(&mut self, key: &str) -> (res: Option<Bytes>)
        ensures
            final(self)@ == (Meta { props: old(self)@.props.remove(key@), ..old(self)@ }),
            value_of(old(self)@.props, key@, res),
    {
        self.properties.remove(key)
    }

    /// The ids of all files, in no particular order.
    pub fn all_file_keys(&self) -> (res: Vec<u64>)
        ensures
            res@.no_duplicates(),
            res@.to_set() == self@.files.dom(),
    {
        file_ids(&self.files)
    }

    /// All files.
    pub fn all_files(&self) -> (res: &HashMap<u64, FileMeta>)
        ensures
            res@ == self@.files,
    {
        &self.files
    }

    /// Version of the last data in the files.
    pub fn data_version(&self) -> (res: u64)
        requires
            self@.version() <= u64::MAX,
        ensures
            res == self@.version(),
    {
        self.base_version + self.data_sequence
    }

    /// Log index up to which data is in files. A shard that is not flushed yet has
    /// it from its parent, where that is the same shard.
    pub fn data_persisted_log_index(&self) -> (res: u64)
        ensures
            res == self@.persisted(),
    {
        proof {
            reveal_with_fuel(ShardMeta::model, 2);
        }
        match &self.parent {
            Some(parent) => if parent.id == self.id {
                parent.data_sequence
            } else {
                self.data_sequence
            },
            None => self.data_sequence,
        }
    }
}

} // verus!
