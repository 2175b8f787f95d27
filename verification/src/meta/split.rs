//! Cutting a shard into parts.
use vstd::prelude::*;

use crate::bound::{law_overlap_is_a_common_key, Bound, BoundedDataSet, DataBound};
use crate::del_prefixes::keys_view;
use crate::file_meta::FileMeta;
use crate::files::{files_where, ids_where, retain_files};
use crate::keyspace::{is_whole_keyspace_range, whole_keyspace};
use crate::lists::{contains_i64, contains_u64, retain_vec};
use crate::meta::{Meta, ShardMeta};
use crate::pb;
use crate::properties::{props_valid, STORAGE_CLASS_KEY};
use crate::range::{get_splitting_start_end, split_end, split_part, split_start};
use crate::vectors::{copy_vector_files, vector_of, vectors_of, Vector};
use crate::pb::TableIdSpan;
use crate::LOCK_CF;

verus! {

broadcast use vstd::std_specs::hash::group_hash_axioms;

/// A file that locks may be in.
pub open spec fn lock_file(fm: FileMeta) -> bool {
    fm.file_type is Sst && (fm.level == 0 || fm.cf == LOCK_CF)
}

impl Vector {
    /// With the files that overlap the bound.
    pub open spec fn within(self, b: Bound) -> Vector {
        Vector {
            files: self.files.filter(|f: pb::VectorIndexFile| b.overlaps(f.bound())),
            ..self
        }
    }
}

/// The indexes of the listed tables that have files that overlap the bound, with
/// those files.
pub open spec fn vectors_within(s: Seq<Vector>, ids: Seq<i64>, b: Bound) -> Seq<Vector>
    decreases s.len(),
{
    if s.len() == 0 {
        Seq::empty()
    } else {
        let rest = vectors_within(s.drop_last(), ids, b);
        let last = s.last().within(b);
        if ids.contains(last.table_id) && last.files.len() > 0 {
            rest.push(last)
        } else {
            rest
        }
    }
}

impl Meta {
    /// What parts keep of the shard that was split: only the files that locks may
    /// be in, from which memory tables are recovered.
    pub open spec fn as_parent(self) -> Meta {
        Meta {
            files: files_where(self.files, |fm: FileMeta| lock_file(fm)),
            vector_indexes: Seq::empty(),
            ..self
        }
    }

    /// The files that part with the bound gets, where `columnar` says that it has
    /// columnar tables.
    pub open spec fn files_within(self, b: Bound, columnar: bool) -> Map<u64, FileMeta> {
        files_where(
            self.files,
            |fm: FileMeta| b.overlaps(fm.bound()) && (columnar || !(fm.file_type is Columnar)),
        )
    }

    /// Part `i` of a split, before any file is given to it.
    pub open spec fn bare_part(
        self,
        split: pb::Split,
        sequence: u64,
        initial_seq: u64,
        i: int,
    ) -> Meta {
        let keys = keys_view(split.keys@);
        let props = split.new_shards@[i];
        let own = props.shard_id == self.id;
        Meta {
            engine_id: self.engine_id,
            base_version: if own {
                self.base_version
            } else {
                (self.base_version + sequence) as u64
            },
            data_sequence: if own {
                sequence
            } else {
                initial_seq
            },
            seq: if own {
                sequence
            } else {
                initial_seq
            },
            ..Meta::of_split(
                props.shard_id,
                (self.ver + split.new_shards@.len() - 1) as u64,
                split_start(self.range.start, keys, i),
                split_end(self.range.end, keys, i),
                props,
                self.as_parent(),
            )
        }
    }

    /// Part `i` of a split. `span` gives the table ids of its keys. A part that is
    /// a whole keyspace starts empty.
    pub open spec fn part(
        self,
        split: pb::Split,
        sequence: u64,
        initial_seq: u64,
        span: TableIdSpan,
        i: int,
    ) -> Meta {
        let bare = self.bare_part(split, sequence, initial_seq, i);
        let b = bare.range.inner_bound();
        let ids = self.columnar_table_ids.filter(|id: i64| span.min <= id <= span.max);
        if whole_keyspace(bare.range.start, bare.range.end) {
            bare
        } else {
            Meta {
                columnar_table_ids: ids,
                columnar_l2_snap_version: self.columnar_l2_snap_version,
                max_ts: self.max_ts,
                schema: self.schema,
                props: if self.props.contains_key(STORAGE_CLASS_KEY@) {
                    bare.props.insert(STORAGE_CLASS_KEY@, self.props[STORAGE_CLASS_KEY@])
                } else {
                    bare.props
                },
                files: self.files_within(b, ids.len() > 0),
                unconverted_l0s: if self.schema.valid() && ids.len() > 0 {
                    self.unconverted_l0s.filter(
                        |id: u64|
                            self.files.contains_key(id) && self.files[id].level == 0 && b.overlaps(
                                self.files[id].bound(),
                            ),
                    )
                } else {
                    Set::empty()
                },
                vector_indexes: vectors_within(self.vector_indexes, ids, b),
                ..bare
            }
        }
    }

    /// The split fits the shard, and its numbers fit their types.
    pub open spec fn can_split(self, split: pb::Split, sequence: u64, spans: int) -> bool {
        let n = split.new_shards@.len();
        &&& n <= split.keys@.len() + 1
        &&& n <= spans
        &&& 1 <= self.ver + n <= u64::MAX
        &&& self.base_version + sequence <= u64::MAX
        &&& forall|i: int| 0 <= i < n ==> props_valid(#[trigger] split.new_shards@[i])
    }
}

/// The indexes of the listed tables that have files that overlap the bound, with
/// those files.
pub fn split_vectors(v: &Vec<pb::VectorIndex>, ids: &Vec<i64>, b: DataBound<'_>) -> (res: Vec<
    pb::VectorIndex,
>)
    ensures
        vectors_of(res@) == vectors_within(vectors_of(v@), ids@, b@),
{
    let ghost s = vectors_of(v@);
    let mut res: Vec<pb::VectorIndex> = Vec::new();
    let mut i: usize = 0;
    assert(s.take(0) =~= Seq::empty());
    assert(vectors_of(res@) =~= vectors_within(s.take(0), ids@, b@));
    while i < v.len()
        invariant
            i <= v@.len(),
            s == vectors_of(v@),
            vectors_of(res@) == vectors_within(s.take(i as int), ids@, b@),
        decreases v@.len() - i,
    {
        assert(s.take(i + 1).drop_last() =~= s.take(i as int));
        assert(s.take(i + 1).last() == vector_of(v@[i as int]));
        let keep = |f: &pb::VectorIndexFile| -> (r: bool)
            ensures
                r == b@.overlaps(f.bound()),
            {
                b.overlap_bound(f.data_bound())
            };
        let files = retain_vec(
            copy_vector_files(&v[i].files),
            keep,
            Ghost(|f: pb::VectorIndexFile| b@.overlaps(f.bound())),
        );
        if contains_i64(ids, v[i].table_id) && files.len() > 0 {
            let ghost before = res@;
            let x = pb::VectorIndex {
                table_id: v[i].table_id,
                index_id: v[i].index_id,
                col_id: v[i].col_id,
                snap_version: v[i].snap_version,
                files,
            };
            res.push(x);
            proof {
                assert(vector_of(x) =~= vector_of(v@[i as int]).within(b@));
                assert(vectors_of(res@) =~= vectors_of(before).push(vector_of(x)));
            }
        }
        i = i + 1;
    }
    assert(s.take(i as int) =~= s);
    res
}

impl ShardMeta {
    /// What parts keep of the shard that was split.
    fn to_parent(&self) -> (res: ShardMeta)
        ensures
            res@ == self@.as_parent(),
    {
        let mut parent = self.copy();
        let keep = |fm: &FileMeta| -> (b: bool)
            ensures
                b == lock_file(*fm),
            {
                fm.is_sst_file() && (fm.level == 0 || fm.cf == 1)
            };
        retain_files(&mut parent.files, keep, Ghost(|fm: FileMeta| lock_file(fm)));
        parent.vector_indexes.clear();
        assert(vectors_of(parent.vector_indexes@) =~= Seq::empty());
        assert(parent@ =~= self@.as_parent());
        parent
    }

    /// Part `i` of a split, before any file is given to it.
    fn new_bare_part(
        &self,
        parent: &ShardMeta,
        split: &pb::Split,
        sequence: u64,
        initial_seq: u64,
        i: usize,
    ) -> (res: ShardMeta)
        requires
            parent@ == self@.as_parent(),
            i < split.new_shards@.len(),
            self@.can_split(*split, sequence, split.new_shards@.len() as int),
        ensures
            res@ == self@.bare_part(*split, sequence, initial_seq, i as int),
    {
        let (start_key, end_key) = get_splitting_start_end(
            &self.range.outer_start,
            &self.range.outer_end,
            &split.keys,
            i,
        );
        let new_shard = &split.new_shards[i];
        let new_ver: u64 = if split.new_shards.len() == 0 {
            self.ver
        } else {
            self.ver + (split.new_shards.len() - 1) as u64
        };
        let id = new_shard.shard_id;
        let mut meta = ShardMeta::new_split(
            id,
            new_ver,
            start_key,
            end_key,
            new_shard,
            Box::new(parent.copy()),
        );
        meta.engine_id = self.engine_id;
        if id == self.id {
            meta.base_version = self.base_version;
            meta.data_sequence = sequence;
            meta.seq = sequence;
        } else {
            meta.base_version = self.base_version + sequence;
            meta.data_sequence = initial_seq;
            meta.seq = initial_seq;
        }
        assert(meta@ =~= self@.bare_part(*split, sequence, initial_seq, i as int));
        meta
    }

    /// Gives the part its files, indexes and settings.
    fn fill_part(&self, meta: &mut ShardMeta, span: TableIdSpan)
        requires
            old(meta)@.unconverted_l0s == Set::<u64>::empty(),
            old(meta)@.files == Map::<u64, FileMeta>::empty(),
        ensures
            ({
                let b = old(meta)@.range.inner_bound();
                let ids = self@.columnar_table_ids.filter(|id: i64| span.min <= id <= span.max);
                final(meta)@ == (Meta {
                    columnar_table_ids: ids,
                    columnar_l2_snap_version: self@.columnar_l2_snap_version,
                    max_ts: self@.max_ts,
                    schema: self@.schema,
                    props: if self@.props.contains_key(STORAGE_CLASS_KEY@) {
                        old(meta)@.props.insert(STORAGE_CLASS_KEY@, self@.props[STORAGE_CLASS_KEY@])
                    } else {
                        old(meta)@.props
                    },
                    files: self@.files_within(b, ids.len() > 0),
                    unconverted_l0s: if self@.schema.valid() && ids.len() > 0 {
                        self@.unconverted_l0s.filter(
                            |id: u64|
                                self@.files.contains_key(id) && self@.files[id].level == 0
                                    && b.overlaps(self@.files[id].bound()),
                        )
                    } else {
                        Set::empty()
                    },
                    vector_indexes: vectors_within(self@.vector_indexes, ids, b),
                    ..old(meta)@
                })
            }),
    {
        let ghost before = meta@;
        let keep_id = |id: &i64| -> (b: bool)
            ensures
                b == (span.min <= *id <= span.max),
            {
                span.min <= *id && *id <= span.max
            };
        let ids = retain_vec(
            crate::lists::copy_i64s(&self.columnar_table_ids),
            keep_id,
            Ghost(|id: i64| span.min <= id <= span.max),
        );
        let columnar = ids.len() > 0;
        let range = meta.range.clone();
        let bound = range.data_bound();
        let ghost b = bound@;
        let keep = |fm: &FileMeta| -> (r: bool)
            ensures
                r == (bound@.overlaps(fm.bound()) && (columnar || !(fm.file_type is Columnar))),
            {
                bound.overlap_bound(fm.data_bound()) && (columnar || !fm.is_columnar_file())
            };
        let mut files = self.files.clone();
        retain_files(
            &mut files,
            keep,
            Ghost(
                |fm: FileMeta| b.overlaps(fm.bound()) && (columnar || !(fm.file_type is Columnar)),
            ),
        );
        let mut unconverted: Vec<u64> = Vec::new();
        if self.schema.is_valid() && columnar {
            let listed = &self.unconverted_l0s;
            let ghost p = |id: u64, fm: FileMeta|
                fm.level == 0 && listed@.contains(id) && b.overlaps(fm.bound());
            let pick = |id: u64, fm: &FileMeta| -> (r: bool)
                ensures
                    r == p(id, *fm),
                {
                    fm.level == 0 && contains_u64(listed, id) && bound.overlap_bound(
                        fm.data_bound(),
                    )
                };
            unconverted = ids_where(&self.files, pick, Ghost(p));
            assert(unconverted@.to_set() =~= self@.unconverted_l0s.filter(
                |id: u64|
                    self@.files.contains_key(id) && self@.files[id].level == 0 && b.overlaps(
                        self@.files[id].bound(),
                    ),
            ));
        } else {
            assert(unconverted@.to_set() =~= Set::empty());
        }
        meta.vector_indexes = split_vectors(&self.vector_indexes, &ids, bound);
        meta.files = files;
        meta.unconverted_l0s = unconverted;
        meta.columnar_table_ids = ids;
        meta.columnar_l2_snap_version = self.columnar_l2_snap_version;
        meta.max_ts = self.max_ts;
        meta.schema = self.schema;
        if let Some(value) = self.get_property(STORAGE_CLASS_KEY) {
            meta.set_property_bytes(STORAGE_CLASS_KEY, value);
        }
    }

    /// The parts of a split, in the order of their keys. `spans` gives for each
    /// part the table ids of its keys.
    pub fn apply_split(
        &self,
        split: &pb::Split,
        sequence: u64,
        initial_seq: u64,
        spans: &Vec<TableIdSpan>,
    ) -> (res: Vec<ShardMeta>)
        requires
            self@.can_split(*split, sequence, spans@.len() as int),
        ensures
            res@.len() == split.new_shards@.len(),
            forall|i: int|
                0 <= i < res@.len() ==> (#[trigger] res@[i])@ == self@.part(
                    *split,
                    sequence,
                    initial_seq,
                    spans@[i],
                    i,
                ),
    {
        let parent = self.to_parent();
        let mut new_shards: Vec<ShardMeta> = Vec::new();
        let mut i: usize = 0;
        while i < split.new_shards.len()
            invariant
                i <= split.new_shards@.len(),
                parent@ == self@.as_parent(),
                self@.can_split(*split, sequence, spans@.len() as int),
                new_shards@.len() == i,
                forall|j: int|
                    0 <= j < i ==> (#[trigger] new_shards@[j])@ == self@.part(
                        *split,
                        sequence,
                        initial_seq,
                        spans@[j],
                        j,
                    ),
            decreases split.new_shards@.len() - i,
        {
            let mut meta = self.new_bare_part(&parent, split, sequence, initial_seq, i);
            if !is_whole_keyspace_range(&meta.range.outer_start, &meta.range.outer_end) {
                self.fill_part(&mut meta, spans[i]);
            }
            new_shards.push(meta);
            i = i + 1;
        }
        new_shards
    }
}

/// Every file of a part is a file of the shard that was split.
pub proof fn law_parts_have_files_of_the_shard(
    m: Meta,
    split: pb::Split,
    sequence: u64,
    initial_seq: u64,
    span: TableIdSpan,
    i: int,
    id: u64,
)
    ensures
        m.part(split, sequence, initial_seq, span, i).files.contains_key(id) ==> {
            &&& m.files.contains_key(id)
            &&& m.part(split, sequence, initial_seq, span, i).files[id] == m.files[id]
        },
{
}

/// A part that is no whole keyspace has every file of the shard in which an inner
/// key of the part may be, but for columnar files where no table of the part is
/// kept as columns.
pub proof fn law_parts_have_files_of_their_keys(
    m: Meta,
    split: pb::Split,
    sequence: u64,
    initial_seq: u64,
    span: TableIdSpan,
    i: int,
    id: u64,
    k: Seq<u8>,
)
    requires
        m.files.contains_key(id),
        m.files[id].bound().has(k),
        m.bare_part(split, sequence, initial_seq, i).range.inner_bound().has(k),
        !whole_keyspace(
            m.bare_part(split, sequence, initial_seq, i).range.start,
            m.bare_part(split, sequence, initial_seq, i).range.end,
        ),
        m.files[id].file_type is Columnar ==> m.part(
            split,
            sequence,
            initial_seq,
            span,
            i,
        ).columnar_table_ids.len() > 0,
    ensures
        m.part(split, sequence, initial_seq, span, i).files.contains_key(id),
{
    let b = m.bare_part(split, sequence, initial_seq, i).range.inner_bound();
    let f = m.files[id].bound();
    crate::key::lemma_le_transitive(b.lower, k, b.upper);
    crate::key::lemma_le_transitive(f.lower, k, f.upper);
    assert(b.inhabited() && f.inhabited());
    law_overlap_is_a_common_key(b, f);
}

/// The ranges of the parts are those that the range is split into at the keys.
pub proof fn law_parts_tile_the_range(
    m: Meta,
    split: pb::Split,
    sequence: u64,
    initial_seq: u64,
    span: TableIdSpan,
    i: int,
)
    ensures
        m.part(split, sequence, initial_seq, span, i).range == split_part(
            m.range,
            keys_view(split.keys@),
            i,
        ),
{
}

} // verus!
