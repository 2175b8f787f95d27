//! Cutting the data of a shard into parts.
use vstd::prelude::*;

use crate::bound::{Bound, BoundedDataSet, DataBound};
use crate::buf::content;
use crate::del_prefixes::{
    all_short, encoded, keys_view, law_marshal_roundtrip, lemma_split_short, split_prefixes,
};
use crate::keyspace::{is_whole_keyspace_range, whole_keyspace, KEYSPACE_PREFIX_LEN};
use crate::lists::{contains_u64, copy_i64s, retain_vec};
use crate::meta::split::{split_vectors, vectors_within};
use crate::pb;
use crate::pb::{StorageClassSpec, TableIdSpan};
use crate::properties::{
    first_value, lemma_asking_keys_differ, lemma_keys_differ, lemma_recovered_keys_differ,
    props_valid, set_all, DEL_PREFIXES_KEY, ENCRYPTION_KEY, STORAGE_CLASS_KEY,
};
use crate::range::{get_splitting_start_end, split_end, split_start, Range, ShardRange};
use crate::shard::data::{
    copy_columnar_files, copy_l0s, ids_of_l0s, BlobTable, Columnar, ColumnarFile, ColumnarLevels,
    Data, L0Table, Mem, ShardData,
};
use crate::shard::levels::{copy_tables, level_of, Level, LevelHandler, ShardCf, SsTable};
use crate::shard::ops::{mems_for, nothing_known, pending_valid, Pending, Shard};

verus! {

broadcast use vstd::std_specs::hash::group_hash_axioms;

/// The levels with the tables that overlap the bound.
pub open spec fn levels_within(levels: Seq<Level>, b: Bound) -> Seq<Level> {
    Seq::new(
        levels.len(),
        |i: int|
            level_of(
                levels[i].tables.filter(|t: SsTable| b.overlaps(t.bound())),
                levels[i].level,
            ),
    )
}

/// The columnar files that overlap the bound, and the waiting tables of level 0
/// among those that do; nothing where no table is kept as columns.
pub open spec fn columnar_within(data: Data, b: Bound, columnar: bool) -> Columnar {
    Columnar {
        levels: Seq::new(
            data.col_levels.levels.len(),
            |i: int|
                data.col_levels.levels[i].filter(
                    |f: ColumnarFile| b.overlaps(f.bound()) && columnar,
                ),
        ),
        unconverted_l0s: data.l0_tbls.filter(
            |t: L0Table|
                b.overlaps(t.bound()) && ids_of_l0s(data.col_levels.unconverted_l0s).contains(t.id)
                    && columnar,
        ),
        l2_snap_version: data.col_levels.l2_snap_version,
    }
}

impl Data {
    /// What a part of the shard with the range gets. `span` gives the table ids of
    /// its keys.
    pub open spec fn within(self, range: Range, inner_key_off: usize, span: TableIdSpan) -> Data {
        let b = range.inner_bound();
        let ids = self.columnar_table_ids.filter(|id: i64| span.min <= id <= span.max);
        Data {
            range,
            inner_key_off,
            mem_tbls: mems_for(b, self.mem_tbls),
            lock_txn_files: Seq::empty(),
            l0_tbls: self.l0_tbls.filter(|t: L0Table| b.overlaps(t.bound())),
            blob_tbls: self.blob_tbls.filter(|t: BlobTable| b.overlaps(t.bound())),
            cfs: Seq::new(self.cfs.len(), |i: int| levels_within(self.cfs[i], b)),
            unloaded_tbls: self.unloaded_tbls,
            update_counter: 1,
            schema_version: self.schema_version,
            restore_version: self.restore_version,
            schema_file: self.schema_file,
            col_levels: columnar_within(self, b, ids.len() > 0),
            vector_indexes: vectors_within(self.vector_indexes, ids, b),
            columnar_table_ids: ids,
            fts_l0_files: Seq::empty(),
            fts_l1_files: Seq::empty(),
            fts_l2_files: Seq::empty(),
            persisted_version: self.persisted_version,
        }
    }
}

fn tables_within(v: &Vec<SsTable>, bound: DataBound<'_>) -> (res: Vec<SsTable>)
    ensures
        res@ == v@.filter(|t: SsTable| bound@.overlaps(t.bound())),
{
    let keep = |t: &SsTable| -> (r: bool)
        ensures
            r == bound@.overlaps(t.bound()),
        {
            bound.overlap_bound(t.data_bound())
        };
    retain_vec(copy_tables(v), keep, Ghost(|t: SsTable| bound@.overlaps(t.bound())))
}

fn cf_within(cf: &ShardCf, bound: DataBound<'_>) -> (res: ShardCf)
    ensures
        res@ == levels_within(cf@, bound@),
{
    let mut levels: Vec<LevelHandler> = Vec::new();
    let mut i: usize = 0;
    while i < cf.levels.len()
        invariant
            i <= cf.levels@.len(),
            levels@.len() == i,
            forall|j: int|
                0 <= j < i ==> (#[trigger] levels@[j])@ == level_of(
                    cf@[j].tables.filter(|t: SsTable| bound@.overlaps(t.bound())),
                    cf@[j].level,
                ),
        decreases cf.levels@.len() - i,
    {
        let tables = tables_within(&cf.levels[i].tables, bound);
        levels.push(LevelHandler::new(cf.levels[i].level, tables));
        i = i + 1;
    }
    let res = ShardCf { levels };
    assert(res@ =~= levels_within(cf@, bound@));
    res
}

fn columnar_files_within(
    v: &Vec<ColumnarFile>,
    bound: DataBound<'_>,
    columnar: bool,
) -> (res: Vec<ColumnarFile>)
    ensures
        res@ == v@.filter(|f: ColumnarFile| bound@.overlaps(f.bound()) && columnar),
{
    let keep = |f: &ColumnarFile| -> (r: bool)
        ensures
            r == (bound@.overlaps(f.bound()) && columnar),
        {
            bound.overlap_bound(f.data_bound()) && columnar
        };
    retain_vec(
        copy_columnar_files(v),
        keep,
        Ghost(|f: ColumnarFile| bound@.overlaps(f.bound()) && columnar),
    )
}

impl ShardData {
    fn columnar_part(&self, bound: DataBound<'_>, columnar: bool) -> (res: ColumnarLevels)
        ensures
            res@ == columnar_within(self@, bound@, columnar),
    {
        let waiting = self.get_unconverted_l0s();
        let keep = |t: &L0Table| -> (r: bool)
            ensures
                r == (bound@.overlaps(t.bound()) && waiting@.contains(t.id) && columnar),
            {
                bound.overlap_bound(t.data_bound()) && contains_u64(&waiting, t.id) && columnar
            };
        let ghost p = |t: L0Table|
            bound@.overlaps(t.bound()) && waiting@.contains(t.id) && columnar;
        let unconverted_l0s = retain_vec(copy_l0s(&self.l0_tbls), keep, Ghost(p));
        let mut levels: Vec<Vec<ColumnarFile>> = Vec::new();
        let mut i: usize = 0;
        while i < self.col_levels.levels.len()
            invariant
                i <= self.col_levels.levels@.len(),
                levels@.len() == i,
                forall|j: int|
                    0 <= j < i ==> (#[trigger] levels@[j])@
                        == self@.col_levels.levels[j].filter(
                        |f: ColumnarFile| bound@.overlaps(f.bound()) && columnar,
                    ),
            decreases self.col_levels.levels@.len() - i,
        {
            levels.push(columnar_files_within(&self.col_levels.levels[i], bound, columnar));
            i = i + 1;
        }
        let res = ColumnarLevels {
            levels,
            unconverted_l0s,
            l2_snap_version: self.col_levels.l2_snap_version,
        };
        proof {
            let q = |t: L0Table|
                bound@.overlaps(t.bound()) && ids_of_l0s(
                    self@.col_levels.unconverted_l0s,
                ).contains(t.id) && columnar;
            assert(p =~= q);
            assert(res@ =~= columnar_within(self@, bound@, columnar));
        }
        res
    }

    fn cfs_part(&self, bound: DataBound<'_>) -> (res: Vec<ShardCf>)
        ensures
            Seq::new(res@.len(), |i: int| res@[i]@) == Seq::new(
                self@.cfs.len(),
                |i: int| levels_within(self@.cfs[i], bound@),
            ),
    {
        let mut cfs: Vec<ShardCf> = Vec::new();
        let mut i: usize = 0;
        while i < self.cfs.len()
            invariant
                i <= self.cfs@.len(),
                cfs@.len() == i,
                forall|j: int|
                    0 <= j < i ==> (#[trigger] cfs@[j])@ == levels_within(self@.cfs[j], bound@),
            decreases self.cfs@.len() - i,
        {
            cfs.push(cf_within(&self.cfs[i], bound));
            i = i + 1;
        }
        assert(Seq::new(cfs@.len(), |i: int| cfs@[i]@) =~= Seq::new(
            self@.cfs.len(),
            |i: int| levels_within(self@.cfs[i], bound@),
        ));
        cfs
    }

    /// What a part of the shard gets.
    pub fn part(&self, shard: &Shard, inner_key_off: usize, span: TableIdSpan) -> (res: ShardData)
        ensures
            res@ == self@.within(shard.range@, inner_key_off, span),
    {
        let range = shard.range.clone();
        let bound = shard.range.data_bound();
        let keep_id = |id: &i64| -> (b: bool)
            ensures
                b == (span.min <= *id <= span.max),
            {
                span.min <= *id && *id <= span.max
            };
        let ids = retain_vec(
            copy_i64s(&self.columnar_table_ids),
            keep_id,
            Ghost(|id: i64| span.min <= id <= span.max),
        );
        let keep_l0 = |t: &L0Table| -> (r: bool)
            ensures
                r == bound@.overlaps(t.bound()),
            {
                bound.overlap_bound(t.data_bound())
            };
        let l0_tbls = retain_vec(
            copy_l0s(&self.l0_tbls),
            keep_l0,
            Ghost(|t: L0Table| bound@.overlaps(t.bound())),
        );
        let blobs = self.blob_tbls.clone();
        assert(blobs@ =~= self.blob_tbls@);
        let keep_blob = |t: &BlobTable| -> (r: bool)
            ensures
                r == bound@.overlaps(t.bound()),
            {
                bound.overlap_bound(t.data_bound())
            };
        let blob_tbls = retain_vec(
            blobs,
            keep_blob,
            Ghost(|t: BlobTable| bound@.overlaps(t.bound())),
        );
        let schema_file = match &self.schema_file {
            Some(s) => Some(s.copy()),
            None => None,
        };
        let res = ShardData {
            range,
            inner_key_off,
            mem_tbls: shard.split_mem_tables(&self.mem_tbls),
            lock_txn_files: Vec::new(),
            l0_tbls,
            blob_tbls,
            cfs: self.cfs_part(bound),
            unloaded_tbls: self.unloaded_tbls.clone(),
            update_counter: 1,
            schema_version: self.schema_version,
            restore_version: self.restore_version,
            schema_file,
            col_levels: self.columnar_part(bound, ids.len() > 0),
            vector_indexes: split_vectors(&self.vector_indexes, &ids, bound),
            columnar_table_ids: ids,
            fts_l0_files: Vec::new(),
            fts_l1_files: Vec::new(),
            fts_l2_files: Vec::new(),
            persisted_version: self.persisted_version,
        };
        assert(res@ =~= self@.within(shard.range@, inner_key_off, span));
        res
    }
}

/// The range of part `i`.
pub open spec fn part_range(shard: Shard, split: pb::Split, i: int) -> Range {
    Range::between(
        split_start(shard.range@.start, keys_view(split.keys@), i),
        split_end(shard.range@.end, keys_view(split.keys@), i),
    )
}

/// How many leading bytes inner keys of part `i` drop.
pub open spec fn part_key_off(shard: Shard, split: pb::Split, i: int) -> usize {
    let r = part_range(shard, split, i);
    if whole_keyspace(r.start, r.end) {
        KEYSPACE_PREFIX_LEN
    } else {
        shard.data@.inner_key_off
    }
}

/// The prefixes of the shard whose keys are to be deleted from part `i`.
pub open spec fn part_deletion(shard: Shard, split: pb::Split, i: int) -> Seq<Seq<u8>> {
    let r = part_range(shard, split, i);
    split_prefixes(shard.pending_ops@.deletion.prefixes, r.start, r.end)
}

/// The properties of part `i`: those that it comes with, and in their place the
/// shard's own prefixes to be deleted and storage class, if there are any.
pub open spec fn part_props(shard: Shard, split: pb::Split, i: int) -> Map<Seq<char>, Seq<u8>> {
    let base = set_all(Map::empty(), split.new_shards@[i]);
    let deletion = part_deletion(shard, split, i);
    let deleted = if deletion.len() > 0 {
        base.insert(DEL_PREFIXES_KEY@, encoded(deletion))
    } else {
        base
    };
    if shard.properties@.contains_key(STORAGE_CLASS_KEY@) {
        deleted.insert(STORAGE_CLASS_KEY@, shard.properties@[STORAGE_CLASS_KEY@])
    } else {
        deleted
    }
}

/// What part `i` is asked to do. `class` is what its own storage class says.
pub open spec fn part_pending(
    shard: Shard,
    split: pb::Split,
    schedule_at: u64,
    class: StorageClassSpec,
    i: int,
) -> Pending {
    let r = part_range(shard, split, i);
    let base = Pending::of(split.new_shards@[i], r.keyspace_id, schedule_at, class);
    let deletion = part_deletion(shard, split, i);
    let deleted = if deletion.len() > 0 {
        base.with_property(DEL_PREFIXES_KEY@, encoded(deletion), r.keyspace_id, schedule_at, class)
    } else {
        base
    };
    if shard.properties@.contains_key(STORAGE_CLASS_KEY@) {
        Pending { storage_class: shard.pending_ops@.storage_class, ..deleted }
    } else {
        deleted
    }
}

/// `part` is part `i` of the split of the shard.
pub open spec fn is_part(
    shard: Shard,
    split: pb::Split,
    sequence: u64,
    initial_seq: u64,
    span: TableIdSpan,
    schedule_at: u64,
    class: StorageClassSpec,
    i: int,
    part: Shard,
) -> bool {
    let props = split.new_shards@[i];
    let own = props.shard_id == shard.id;
    let range = part_range(shard, split, i);
    let off = part_key_off(shard, split, i);
    &&& part.engine_id == shard.engine_id
    &&& part.id == props.shard_id
    &&& part.ver == shard.ver + split.new_shards@.len() - 1
    &&& part.range@ == range
    &&& part.parent_id == shard.id
    &&& part.active == (own && shard.active)
    &&& !part.initial_flushed
    &&& part.base_version == if own {
        shard.base_version as int
    } else {
        shard.base_version + sequence
    }
    &&& part.meta_seq == if own {
        sequence
    } else {
        initial_seq
    }
    &&& part.write_sequence == part.meta_seq
    &&& part.encryption_key == first_value(ENCRYPTION_KEY@, props)
    &&& nothing_known(part)
    &&& part.properties@ == part_props(shard, split, i)
    &&& part.pending_ops@ == part_pending(shard, split, schedule_at, class, i)
    &&& part.data@ == if whole_keyspace(range.start, range.end) {
        Data::empty(range, off)
    } else {
        shard.data@.within(range, off, span)
    }
}

impl Shard {
    fn bare_part(
        &self,
        split: &pb::Split,
        sequence: u64,
        initial_seq: u64,
        schedule_at: u64,
        class: StorageClassSpec,
        i: usize,
    ) -> (res: Shard)
        requires
            i < split.new_shards@.len(),
            i <= split.keys@.len(),
            1 <= self.ver + split.new_shards@.len() <= u64::MAX,
            self.base_version + sequence <= u64::MAX,
            props_valid(split.new_shards@[i as int]),
            pending_valid(split.new_shards@[i as int]),
            all_short(self.pending_ops@.deletion.prefixes),
        ensures
            ({
                let props = split.new_shards@[i as int];
                let own = props.shard_id == self.id;
                &&& res.engine_id == self.engine_id
                &&& res.id == props.shard_id
                &&& res.ver == self.ver + split.new_shards@.len() - 1
                &&& res.range@ == part_range(*self, *split, i as int)
                &&& res.parent_id == self.id
                &&& res.active == (own && self.active)
                &&& !res.initial_flushed
                &&& res.base_version == if own {
                    self.base_version as int
                } else {
                    self.base_version + sequence
                }
                &&& res.meta_seq == if own {
                    sequence
                } else {
                    initial_seq
                }
                &&& res.write_sequence == res.meta_seq
                &&& res.encryption_key == first_value(ENCRYPTION_KEY@, props)
                &&& nothing_known(res)
                &&& res.properties@ == part_props(*self, *split, i as int)
                &&& res.pending_ops@ == part_pending(
                    *self,
                    *split,
                    schedule_at,
                    class,
                    i as int,
                )
                &&& res.data@ == Data::empty(
                    part_range(*self, *split, i as int),
                    part_key_off(*self, *split, i as int),
                )
            }),
    {
        let (start_key, end_key) = get_splitting_start_end(
            &self.range.outer_start,
            &self.range.outer_end,
            &split.keys,
            i,
        );
        let inner_key_off: usize = if is_whole_keyspace_range(start_key, end_key) {
            KEYSPACE_PREFIX_LEN
        } else {
            self.data.inner_key_off
        };
        let new_ver: u64 = self.ver + (split.new_shards.len() - 1) as u64;
        let mut part = Shard::new(
            self.engine_id,
            &split.new_shards[i],
            new_ver,
            ShardRange::new(start_key, end_key),
            inner_key_off,
            schedule_at,
            class,
        );
        part.parent_id = self.id;
        if part.id == self.id {
            part.active = self.active;
            part.base_version = self.base_version;
            part.meta_seq = sequence;
            part.write_sequence = sequence;
        } else {
            part.base_version = self.base_version + sequence;
            part.meta_seq = initial_seq;
            part.write_sequence = initial_seq;
        }
        let ghost base = part;
        proof {
            lemma_keys_differ();
            lemma_recovered_keys_differ();
            lemma_asking_keys_differ();
        }
        if !self.pending_ops.del_prefixes.is_empty() {
            let new_del_prefixes = self.pending_ops.del_prefixes.build_split(start_key, end_key);
            if !new_del_prefixes.is_empty() {
                let buf = new_del_prefixes.marshal();
                proof {
                    lemma_split_short(self.pending_ops@.deletion.prefixes, start_key@, end_key@);
                    law_marshal_roundtrip(new_del_prefixes@.prefixes);
                }
                part.set_property(DEL_PREFIXES_KEY, buf.as_slice(), schedule_at, class);
            }
        } else {
            assert(part_deletion(*self, *split, i as int).len() == 0) by {
                reveal(Seq::filter);
            }
        }
        if let Some(value) = self.get_property(STORAGE_CLASS_KEY) {
            part.set_property(
                STORAGE_CLASS_KEY,
                &value,
                schedule_at,
                self.pending_ops.storage_class_spec,
            );
        }
        part
    }

    /// The parts that the shard is split into, in the order of their keys. `spans`
    /// gives the table ids of their keys, and `classes` what the storage class that
    /// each comes with says.
    pub fn split(
        &self,
        split: &pb::Split,
        sequence: u64,
        initial_seq: u64,
        spans: &Vec<TableIdSpan>,
        schedule_at: u64,
        classes: &Vec<StorageClassSpec>,
    ) -> (res: Vec<Shard>)
        requires
            self.data@.lock_txn_files.len() == 0,
            split.new_shards@.len() == split.keys@.len() + 1,
            spans@.len() == split.new_shards@.len(),
            classes@.len() == split.new_shards@.len(),
            self.ver + split.new_shards@.len() <= u64::MAX,
            self.base_version + sequence <= u64::MAX,
            forall|i: int|
                0 <= i < split.new_shards@.len() ==> props_valid(#[trigger] split.new_shards@[i])
                    && pending_valid(split.new_shards@[i]),
            all_short(self.pending_ops@.deletion.prefixes),
        ensures
            res@.len() == split.new_shards@.len(),
            forall|i: int|
                0 <= i < res@.len() ==> is_part(
                    *self,
                    *split,
                    sequence,
                    initial_seq,
                    spans@[i],
                    schedule_at,
                    classes@[i],
                    i,
                    #[trigger] res@[i],
                ),
    {
        let mut parts: Vec<Shard> = Vec::new();
        let mut i: usize = 0;
        while i < split.new_shards.len()
            invariant
                i <= split.new_shards@.len(),
                split.new_shards@.len() == split.keys@.len() + 1,
                spans@.len() == split.new_shards@.len(),
                classes@.len() == split.new_shards@.len(),
                self.ver + split.new_shards@.len() <= u64::MAX,
                self.base_version + sequence <= u64::MAX,
                forall|i: int|
                    0 <= i < split.new_shards@.len() ==> props_valid(
                        #[trigger] split.new_shards@[i],
                    ) && pending_valid(split.new_shards@[i]),
                all_short(self.pending_ops@.deletion.prefixes),
                parts@.len() == i,
                forall|j: int|
                    0 <= j < i ==> is_part(
                        *self,
                        *split,
                        sequence,
                        initial_seq,
                        spans@[j],
                        schedule_at,
                        classes@[j],
                        j,
                        #[trigger] parts@[j],
                    ),
            decreases split.new_shards@.len() - i,
        {
            let mut part = self.bare_part(
                split,
                sequence,
                initial_seq,
                schedule_at,
                classes[i],
                i,
            );
            if !is_whole_keyspace_range(&part.range.outer_start, &part.range.outer_end) {
                part.data = self.data.part(&part, part.data.inner_key_off, spans[i]);
            }
            parts.push(part);
            i = i + 1;
        }
        parts
    }
}

/// Every key in memory that belongs to a part is in a memory table of the part,
/// where the part is no whole keyspace.
pub proof fn law_part_has_its_memory(
    data: Data,
    range: Range,
    inner_key_off: usize,
    span: TableIdSpan,
    i: int,
    k: int,
)
    requires
        0 <= i < data.mem_tbls.len(),
        0 <= k < data.mem_tbls[i].keys.len(),
        range.inner_bound().has(content(data.mem_tbls[i].keys[k])),
    ensures
        data.within(range, inner_key_off, span).mem_tbls.contains(data.mem_tbls[i]),
{
    broadcast use vstd::seq_lib::group_filter_ensures;

    let b = range.inner_bound();
    let m = data.mem_tbls[i];
    let p = |m: Mem| m.force_switch || m.in_bound(b);
    assert(m.in_bound(b)) by {
        assert(b.has(content(m.keys[k])));
    }
    assert(data.mem_tbls.filter(p).contains(data.mem_tbls[i]));
    let f = data.mem_tbls.filter(p);
    let j = choose|j: int| 0 <= j < f.len() && f[j] == m;
    let all = seq![Mem::empty()] + f;
    assert(all[j + 1] == m);
    assert(all.contains(m));
}

/// Every table of a part is a table of the shard at the same level, and overlaps
/// the part.
pub proof fn law_part_has_tables_of_the_shard(
    data: Data,
    range: Range,
    inner_key_off: usize,
    span: TableIdSpan,
    c: int,
    l: int,
    t: SsTable,
)
    requires
        0 <= c < data.cfs.len(),
        0 <= l < data.cfs[c].len(),
    ensures
        data.within(range, inner_key_off, span).cfs[c][l].tables.contains(t) <==> data.cfs[c][
            l
        ].tables.contains(t) && range.inner_bound().overlaps(t.bound()),
{
    broadcast use vstd::seq_lib::group_filter_ensures;

    let b = range.inner_bound();
    let p = |t: SsTable| b.overlaps(t.bound());
    let s = data.cfs[c][l].tables;
    if s.filter(p).contains(t) {
        s.lemma_filter_contains_rev(p, t);
    }
    if s.contains(t) && p(t) {
        let i = choose|i: int| 0 <= i < s.len() && s[i] == t;
        assert(s.filter(p).contains(s[i]));
    }
}

} // verus!
