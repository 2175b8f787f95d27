//! Adding tables that were not loaded before.
use std::collections::HashMap;
use vstd::prelude::*;

use crate::bound::BoundedDataSet;
use crate::file_meta::{FileMeta, FileType};
use crate::files::{file_ids, files_where, retain_files};
use crate::lists::copy_i64s;
use crate::pb;
use crate::range::Range;
use crate::shard::data::{
    copy_fts_files, copy_l0s, ids_of_blobs, BlobTable, Columnar, ColumnarFile, ColumnarLevels, Data,
    FtsFile, L0Table, SchemaFile, ShardData,
};
use crate::shard::levels::{cf_levels, law_sorted_tables, sorted_tables, ShardCf, SsTable};
use crate::shard::merge::{
    all_placed, blobs_merged, copy_mems, files_for, law_newest_first, levels_merged, merge_blobs,
    newest_first, sort_l0s, tables_for, MergeSource,
};
use crate::shard::ops::copy_txn_files;
use crate::vectors::{
    copy_vector, copy_vectors, has_vector_file, lemma_same_bags, lemma_vectors_merged,
    merge_vectors, vector_file_ids, vector_of, vectors_merged, vectors_of, Vector,
};

verus! {

broadcast use vstd::std_specs::hash::group_hash_axioms;

/// Files that were opened, by id.
pub struct OpenedFiles {
    /// Tables of level 0.
    pub l0_tables: HashMap<u64, L0Table>,
    /// Tables of the lower levels.
    pub ln_tables: HashMap<u64, SsTable>,
    /// Columnar files.
    pub col_files: HashMap<u64, ColumnarFile>,
    /// Blob tables.
    pub blob_tables: HashMap<u64, BlobTable>,
    /// Vector index files, each in an index of its own.
    pub vec_index_files: HashMap<u64, pb::VectorIndex>,
    /// Packed full text files of level 0.
    pub fts_l0_files: HashMap<u64, FtsFile>,
    /// Packed full text files of level 1.
    pub fts_l1_files: HashMap<u64, FtsFile>,
    /// Dedicated full text files.
    pub fts_l2_files: HashMap<u64, FtsFile>,
}

/// The file is a table of level 0.
pub open spec fn is_l0_table(fm: FileMeta) -> bool {
    fm.file_type is Sst && fm.level == 0
}

/// The file is a table of a lower level.
pub open spec fn is_ln_table(fm: FileMeta) -> bool {
    fm.file_type is Sst && fm.level != 0
}

/// What `g` makes of the files that satisfy `p`, in order.
pub open spec fn picked<T>(
    files: Seq<(u64, FileMeta)>,
    p: spec_fn(u64, FileMeta) -> bool,
    g: spec_fn(u64, FileMeta) -> T,
) -> Seq<T>
    decreases files.len(),
{
    if files.len() == 0 {
        Seq::empty()
    } else {
        let rest = picked(files.drop_last(), p, g);
        let f = files.last();
        if p(f.0, f.1) {
            rest.push(g(f.0, f.1))
        } else {
            rest
        }
    }
}

impl OpenedFiles {
    /// The file was opened and has a place.
    pub open spec fn has_place(self, id: u64, fm: FileMeta) -> bool {
        match fm.file_type {
            FileType::Sst => if fm.level == 0 {
                self.l0_tables@.contains_key(id)
            } else {
                &&& self.ln_tables@.contains_key(id)
                &&& 0 <= fm.cf < 3
                &&& fm.level <= cf_levels(fm.cf as int)
            },
            FileType::Columnar => self.col_files@.contains_key(id) && fm.level < 3,
            FileType::Blob => self.blob_tables@.contains_key(id),
            FileType::VectorIndex => self.vec_index_files@.contains_key(id),
            FileType::FtsPackedFile => self.fts_l0_files@.contains_key(id)
                || self.fts_l1_files@.contains_key(id),
            FileType::FtsDedicatedFile => self.fts_l2_files@.contains_key(id),
            FileType::TxnChunk | FileType::Schema => false,
        }
    }

    /// The opened tables of level 0.
    pub open spec fn l0s(self, files: Seq<(u64, FileMeta)>) -> Seq<L0Table> {
        picked(files, |id: u64, fm: FileMeta| is_l0_table(fm), |id: u64, fm: FileMeta| self.l0_tables@[id])
    }

    /// The opened tables of the lower levels.
    pub open spec fn tables(self, files: Seq<(u64, FileMeta)>) -> Seq<SsTable> {
        picked(files, |id: u64, fm: FileMeta| is_ln_table(fm), |id: u64, fm: FileMeta| self.ln_tables@[id])
    }

    /// The opened columnar files.
    pub open spec fn columnars(self, files: Seq<(u64, FileMeta)>) -> Seq<ColumnarFile> {
        picked(
            files,
            |id: u64, fm: FileMeta| fm.file_type is Columnar,
            |id: u64, fm: FileMeta| self.col_files@[id],
        )
    }

    /// The opened blob tables.
    pub open spec fn blobs(self, files: Seq<(u64, FileMeta)>) -> Seq<BlobTable> {
        picked(
            files,
            |id: u64, fm: FileMeta| fm.file_type is Blob,
            |id: u64, fm: FileMeta| self.blob_tables@[id],
        )
    }

    /// The opened vector index files.
    pub open spec fn vectors(self, files: Seq<(u64, FileMeta)>) -> Seq<Vector> {
        picked(
            files,
            |id: u64, fm: FileMeta| fm.file_type is VectorIndex,
            |id: u64, fm: FileMeta| vector_of(self.vec_index_files@[id]),
        )
    }
}

impl OpenedFiles {
    /// The opened packed full text files of level 0.
    pub open spec fn fts_l0s(self, files: Seq<(u64, FileMeta)>) -> Seq<FtsFile> {
        picked(
            files,
            |id: u64, fm: FileMeta|
                fm.file_type is FtsPackedFile && self.fts_l0_files@.contains_key(id),
            |id: u64, fm: FileMeta| self.fts_l0_files@[id],
        )
    }

    /// The opened packed full text files of level 1.
    pub open spec fn fts_l1s(self, files: Seq<(u64, FileMeta)>) -> Seq<FtsFile> {
        picked(
            files,
            |id: u64, fm: FileMeta|
                fm.file_type is FtsPackedFile && !self.fts_l0_files@.contains_key(id),
            |id: u64, fm: FileMeta| self.fts_l1_files@[id],
        )
    }

    /// The opened dedicated full text files.
    pub open spec fn fts_l2s(self, files: Seq<(u64, FileMeta)>) -> Seq<FtsFile> {
        picked(
            files,
            |id: u64, fm: FileMeta| fm.file_type is FtsDedicatedFile,
            |id: u64, fm: FileMeta| self.fts_l2_files@[id],
        )
    }
}

/// Where each table of the lower levels goes.
pub open spec fn table_places(files: Seq<(u64, FileMeta)>) -> Seq<pb::TableCreate> {
    picked(files, |id: u64, fm: FileMeta| is_ln_table(fm), |id: u64, fm: FileMeta| fm.table_create(id))
}

/// Where each columnar file goes.
pub open spec fn columnar_places(files: Seq<(u64, FileMeta)>) -> Seq<pb::ColumnarCreate> {
    picked(
        files,
        |id: u64, fm: FileMeta| fm.file_type is Columnar,
        |id: u64, fm: FileMeta| fm.columnar_create(id),
    )
}

impl Data {
    /// The data with the opened files in their places and nothing left to load. Columnar
    /// files, vector indexes and dedicated full text files are in one of their orders.
    pub open spec fn loaded(self, files: Seq<(u64, FileMeta)>, opened: OpenedFiles) -> Data {
        Data {
            l0_tbls: newest_first(self.l0_tbls + opened.l0s(files)),
            blob_tbls: blobs_merged(self.blob_tbls, opened.blobs(files)),
            cfs: Seq::new(
                3,
                |c: int|
                    levels_merged(self.cfs[c], opened.tables(files), table_places(files), c),
            ),
            unloaded_tbls: Map::empty(),
            update_counter: (self.update_counter + 1) as u64,
            col_levels: Columnar {
                levels: Seq::new(
                    self.col_levels.levels.len(),
                    |i: int|
                        self.col_levels.levels[i] + files_for(
                            opened.columnars(files),
                            columnar_places(files),
                            i,
                        ),
                ),
                ..self.col_levels
            },
            vector_indexes: vectors_merged(self.vector_indexes, opened.vectors(files)),
            fts_l0_files: self.fts_l0_files + opened.fts_l0s(files),
            fts_l1_files: self.fts_l1_files + opened.fts_l1s(files),
            fts_l2_files: self.fts_l2_files + opened.fts_l2s(files),
            ..self
        }
    }
}

/// The opened files, kind by kind.
struct Routed {
    l0_tbls: Vec<L0Table>,
    tables: Vec<SsTable>,
    table_places: Vec<pb::TableCreate>,
    col_files: Vec<ColumnarFile>,
    col_places: Vec<pb::ColumnarCreate>,
    blob_tbls: Vec<BlobTable>,
    vectors: Vec<pb::VectorIndex>,
    fts_l0s: Vec<FtsFile>,
    fts_l1s: Vec<FtsFile>,
    fts_l2s: Vec<FtsFile>,
}

impl Routed {
    spec fn of(self, files: Seq<(u64, FileMeta)>, opened: OpenedFiles) -> bool {
        &&& self.l0_tbls@ == opened.l0s(files)
        &&& self.tables@ == opened.tables(files)
        &&& self.table_places@ == table_places(files)
        &&& self.col_files@ == opened.columnars(files)
        &&& self.col_places@ == columnar_places(files)
        &&& self.blob_tbls@ == opened.blobs(files)
        &&& vectors_of(self.vectors@) == opened.vectors(files)
        &&& self.fts_l0s@ == opened.fts_l0s(files)
        &&& self.fts_l1s@ == opened.fts_l1s(files)
        &&& self.fts_l2s@ == opened.fts_l2s(files)
        &&& self.tables@.len() == self.table_places@.len()
        &&& self.col_files@.len() == self.col_places@.len()
        &&& all_placed(self.table_places@)
    }

    /// Puts one more file to its kind.
    fn add(
        &mut self,
        id: u64,
        fm: &FileMeta,
        opened: &OpenedFiles,
        Ghost(files): Ghost<Seq<(u64, FileMeta)>>,
    )
        requires
            old(self).of(files, *opened),
            opened.has_place(id, *fm),
        ensures
            final(self).of(files.push((id, *fm)), *opened),
    {
        let ghost more = files.push((id, *fm));
        assert(more.drop_last() =~= files);
        let ghost before = vectors_of(self.vectors@);
        match fm.file_type {
            FileType::Sst => if fm.level == 0 {
                self.l0_tbls.push(opened.l0_tables.get(&id).unwrap().clone());
            } else {
                self.tables.push(opened.ln_tables.get(&id).unwrap().clone());
                self.table_places.push(fm.to_table_create(id));
            },
            FileType::Columnar => {
                self.col_files.push(opened.col_files.get(&id).unwrap().clone());
                self.col_places.push(fm.to_columnar_create(id));
            },
            FileType::Blob => {
                self.blob_tbls.push(opened.blob_tables.get(&id).unwrap().clone());
            },
            FileType::VectorIndex => {
                let v = copy_vector(opened.vec_index_files.get(&id).unwrap());
                self.vectors.push(v);
                assert(vectors_of(self.vectors@) =~= before.push(vector_of(v)));
            },
            FileType::FtsPackedFile => match opened.fts_l0_files.get(&id) {
                Some(f) => {
                    self.fts_l0s.push(f.clone());
                },
                None => {
                    self.fts_l1s.push(opened.fts_l1_files.get(&id).unwrap().clone());
                },
            },
            FileType::FtsDedicatedFile => {
                self.fts_l2s.push(opened.fts_l2_files.get(&id).unwrap().clone());
            },
            FileType::TxnChunk | FileType::Schema => {},
        }
    }
}

/// The opened files, kind by kind.
fn route(files: &Vec<(u64, FileMeta)>, opened: &OpenedFiles) -> (res: Routed)
    requires
        forall|i: int|
            0 <= i < files@.len() ==> opened.has_place(
                (#[trigger] files@[i]).0,
                files@[i].1,
            ),
    ensures
        res.of(files@, *opened),
{
    let mut res = Routed {
        l0_tbls: Vec::new(),
        tables: Vec::new(),
        table_places: Vec::new(),
        col_files: Vec::new(),
        col_places: Vec::new(),
        blob_tbls: Vec::new(),
        vectors: Vec::new(),
        fts_l0s: Vec::new(),
        fts_l1s: Vec::new(),
        fts_l2s: Vec::new(),
    };
    let mut i: usize = 0;
    assert(vectors_of(res.vectors@) =~= Seq::empty());
    while i < files.len()
        invariant
            i <= files@.len(),
            forall|j: int|
                0 <= j < files@.len() ==> opened.has_place(
                    (#[trigger] files@[j]).0,
                    files@[j].1,
                ),
            res.of(files@.take(i as int), *opened),
        decreases files@.len() - i,
    {
        assert(files@.take(i + 1) =~= files@.take(i as int).push(files@[i as int]));
        res.add(files[i].0, &files[i].1, opened, Ghost(files@.take(i as int)));
        i = i + 1;
    }
    assert(files@.take(i as int) =~= files@);
    res
}

/// The list holds each file of the map once, and no other.
pub open spec fn lists_files(files: Seq<(u64, FileMeta)>, m: Map<u64, FileMeta>) -> bool {
    &&& forall|i: int|
        0 <= i < files.len() ==> m.contains_key((#[trigger] files[i]).0) && m[files[i].0]
            == files[i].1
    &&& forall|i: int, j: int|
        0 <= i < j < files.len() ==> (#[trigger] files[i]).0 != (#[trigger] files[j]).0
    &&& forall|id: u64| #[trigger]
        m.contains_key(id) ==> exists|i: int| 0 <= i < files.len() && (#[trigger] files[i]).0 == id
}

impl Data {
    /// The tables that are not loaded yet and reach into the shard.
    pub open spec fn to_load(self) -> Map<u64, FileMeta> {
        files_where(
            self.unloaded_tbls,
            |fm: FileMeta| self.range.inner_bound().overlaps(fm.bound()),
        )
    }
}

fn more_fts_files(own: &Vec<FtsFile>, more: &Vec<FtsFile>) -> (res: Vec<FtsFile>)
    ensures
        res@ == own@ + more@,
{
    let mut res = copy_fts_files(own);
    res.extend_from_slice(more.as_slice());
    assert(res@ =~= own@ + more@);
    res
}

impl ShardData {
    /// The tables that are not loaded yet and reach into the shard, each once, in no
    /// particular order.
    pub fn tables_to_load(&self) -> (res: Vec<(u64, FileMeta)>)
        ensures
            lists_files(res@, self@.to_load()),
    {
        let mut m = self.unloaded_tbls.clone();
        let range = &self.range;
        let ghost p = |fm: FileMeta| self@.range.inner_bound().overlaps(fm.bound());
        let keep = |fm: &FileMeta| -> (b: bool)
            ensures
                b == range@.inner_bound().overlaps(fm.bound()),
            { range.data_bound().overlap_bound(fm.data_bound()) };
        retain_files(&mut m, keep, Ghost(p));
        let ids = file_ids(&m);
        let mut res: Vec<(u64, FileMeta)> = Vec::new();
        let mut i: usize = 0;
        while i < ids.len()
            invariant
                i <= ids@.len(),
                ids@.to_set() == m@.dom(),
                res@.len() == i,
                forall|j: int|
                    0 <= j < i ==> (#[trigger] res@[j]).0 == ids@[j] && res@[j].1 == m@[ids@[j]],
            decreases ids@.len() - i,
        {
            assert(ids@.to_set().contains(ids@[i as int]));
            res.push((ids[i], m.get(&ids[i]).unwrap().clone()));
            i = i + 1;
        }
        proof {
            assert(m@ == self@.to_load());
            assert forall|j: int| 0 <= j < res@.len() implies m@.contains_key(
                (#[trigger] res@[j]).0,
            ) by {
                assert(ids@.to_set().contains(ids@[j]));
            }
            assert forall|id: u64| #[trigger] m@.contains_key(id) implies exists|j: int|
                0 <= j < res@.len() && (#[trigger] res@[j]).0 == id by {
                assert(ids@.to_set().contains(id));
                let j = choose|j: int| 0 <= j < ids@.len() && ids@[j] == id;
                assert(res@[j].0 == id);
            }
        }
        res
    }

    /// The data with the opened files in their places. `files` are those that were
    /// to be loaded, in the order in which they are added. Nothing is said of the order of
    /// the columnar files of a level, of vector indexes and of dedicated full text files.
    pub fn load_unloaded_tables(&self, files: &Vec<(u64, FileMeta)>, opened: &OpenedFiles) -> (res:
        ShardData)
        requires
            self@.wf(),
            forall|c: int| 0 <= c < 3 ==> (#[trigger] self@.cfs[c]).len() == cf_levels(c),
            self@.update_counter < u64::MAX,
            lists_files(files@, self@.to_load()),
            forall|i: int|
                0 <= i < files@.len() ==> opened.has_place(
                    (#[trigger] files@[i]).0,
                    files@[i].1,
                ),
        ensures
            res@.reorders(self@.loaded(files@, *opened)),
    {
        let routed = route(files, opened);
        let mut l0s = copy_l0s(&self.l0_tbls);
        let ghost own = l0s@;
        l0s.extend_from_slice(routed.l0_tbls.as_slice());
        assert(l0s@ =~= own + routed.l0_tbls@);
        assert(self@.cfs[0].len() == cf_levels(0));
        assert(self@.cfs[1].len() == cf_levels(1));
        assert(self@.cfs[2].len() == cf_levels(2));
        let mut cfs: Vec<ShardCf> = Vec::new();
        cfs.push(self.merge_cf(&routed.tables, &routed.table_places, 0));
        cfs.push(self.merge_cf(&routed.tables, &routed.table_places, 1));
        cfs.push(self.merge_cf(&routed.tables, &routed.table_places, 2));
        let mut levels: Vec<Vec<ColumnarFile>> = Vec::new();
        let mut i: usize = 0;
        while i < self.col_levels.levels.len()
            invariant
                i <= self.col_levels.levels@.len(),
                routed.col_files@.len() == routed.col_places@.len(),
                levels@.len() == i,
                forall|j: int|
                    0 <= j < i ==> (#[trigger] levels@[j])@ == self@.col_levels.levels[j]
                        + files_for(routed.col_files@, routed.col_places@, j),
            decreases self.col_levels.levels@.len() - i,
        {
            levels.push(self.columnar_level_with(&routed.col_files, &routed.col_places, i));
            i = i + 1;
        }
        let col_levels = ColumnarLevels {
            levels,
            unconverted_l0s: copy_l0s(&self.col_levels.unconverted_l0s),
            l2_snap_version: self.col_levels.l2_snap_version,
        };
        let mut vector_indexes = copy_vectors(&self.vector_indexes);
        merge_vectors(&mut vector_indexes, &routed.vectors);
        let schema_file: Option<SchemaFile> = match &self.schema_file {
            Some(s) => Some(s.copy()),
            None => None,
        };
        let res = ShardData {
            range: self.range.clone(),
            inner_key_off: self.inner_key_off,
            mem_tbls: copy_mems(&self.mem_tbls),
            lock_txn_files: copy_txn_files(&self.lock_txn_files),
            l0_tbls: sort_l0s(&l0s),
            blob_tbls: merge_blobs(&self.blob_tbls, &routed.blob_tbls),
            cfs,
            unloaded_tbls: HashMap::new(),
            update_counter: self.update_counter + 1,
            schema_version: self.schema_version,
            restore_version: self.restore_version,
            schema_file,
            col_levels,
            vector_indexes,
            columnar_table_ids: copy_i64s(&self.columnar_table_ids),
            fts_l0_files: more_fts_files(&self.fts_l0_files, &routed.fts_l0s),
            fts_l1_files: more_fts_files(&self.fts_l1_files, &routed.fts_l1s),
            fts_l2_files: more_fts_files(&self.fts_l2_files, &routed.fts_l2s),
            persisted_version: self.persisted_version,
        };
        assert(res@ =~= self@.loaded(files@, *opened));
        res
    }
}

/// Two lists that are picked alike have what was made of a file at the same place.
proof fn lemma_picked<T, U>(
    files: Seq<(u64, FileMeta)>,
    p: spec_fn(u64, FileMeta) -> bool,
    g: spec_fn(u64, FileMeta) -> T,
    h: spec_fn(u64, FileMeta) -> U,
    i: int,
) -> (k: int)
    requires
        0 <= i < files.len(),
        p(files[i].0, files[i].1),
    ensures
        picked(files, p, g).len() == picked(files, p, h).len(),
        0 <= k < picked(files, p, g).len(),
        picked(files, p, g)[k] == g(files[i].0, files[i].1),
        picked(files, p, h)[k] == h(files[i].0, files[i].1),
    decreases files.len(),
{
    lemma_picked_len(files, p, g, h);
    if i < files.len() - 1 {
        assert(files.drop_last()[i] == files[i]);
        lemma_picked(files.drop_last(), p, g, h, i)
    } else {
        lemma_picked_len(files.drop_last(), p, g, h);
        picked(files, p, g).len() - 1
    }
}

proof fn lemma_picked_len<T, U>(
    files: Seq<(u64, FileMeta)>,
    p: spec_fn(u64, FileMeta) -> bool,
    g: spec_fn(u64, FileMeta) -> T,
    h: spec_fn(u64, FileMeta) -> U,
)
    ensures
        picked(files, p, g).len() == picked(files, p, h).len(),
    decreases files.len(),
{
    if files.len() > 0 {
        lemma_picked_len(files.drop_last(), p, g, h);
    }
}

proof fn lemma_tables_for(
    tables: Seq<SsTable>,
    creates: Seq<pb::TableCreate>,
    cf: int,
    level: int,
    k: int,
)
    requires
        0 <= k < creates.len(),
        creates[k].cf == cf,
        creates[k].level == level,
    ensures
        tables_for(tables, creates, cf, level).contains(tables[k]),
    decreases creates.len(),
{
    let all = tables_for(tables, creates, cf, level);
    if k < creates.len() - 1 {
        lemma_tables_for(tables, creates.drop_last(), cf, level, k);
        let rest = tables_for(tables, creates.drop_last(), cf, level);
        let j = rest.index_of(tables[k]);
        assert(all[j] == tables[k]);
    } else {
        assert(all.last() == tables[k]);
    }
}

proof fn lemma_files_for(
    files: Seq<ColumnarFile>,
    creates: Seq<pb::ColumnarCreate>,
    level: int,
    k: int,
)
    requires
        0 <= k < creates.len(),
        creates[k].level == level,
    ensures
        files_for(files, creates, level).contains(files[k]),
    decreases creates.len(),
{
    let all = files_for(files, creates, level);
    if k < creates.len() - 1 {
        lemma_files_for(files, creates.drop_last(), level, k);
        let rest = files_for(files, creates.drop_last(), level);
        let j = rest.index_of(files[k]);
        assert(all[j] == files[k]);
    } else {
        assert(all.last() == files[k]);
    }
}

proof fn lemma_second<T>(a: Seq<T>, b: Seq<T>, x: T)
    requires
        b.contains(x),
    ensures
        (a + b).contains(x),
{
    let j = b.index_of(x);
    assert((a + b)[a.len() + j] == x);
}

proof fn lemma_same_elements<T>(a: Seq<T>, b: Seq<T>, x: T)
    requires
        a.to_multiset() == b.to_multiset(),
        a.contains(x),
    ensures
        b.contains(x),
{
    broadcast use vstd::seq_lib::group_to_multiset_ensures;

    assert(a.to_multiset().contains(x));
    assert(b.to_multiset().contains(x));
}

impl Data {
    /// The opened file is where it belongs.
    pub open spec fn has_opened(self, id: u64, fm: FileMeta, opened: OpenedFiles) -> bool {
        match fm.file_type {
            FileType::Sst => if fm.level == 0 {
                self.l0_tbls.contains(opened.l0_tables@[id])
            } else {
                self.cfs[fm.cf as int][fm.level - 1].tables.contains(opened.ln_tables@[id])
            },
            FileType::Columnar => self.col_levels.levels[fm.level as int].contains(
                opened.col_files@[id],
            ),
            FileType::Blob => self.blob_tbls.contains(opened.blob_tables@[id]),
            FileType::VectorIndex => {
                let v = vector_of(opened.vec_index_files@[id]);
                forall|f: u64|
                    vector_file_ids(v.files).contains(f) ==> #[trigger] has_vector_file(
                        self.vector_indexes,
                        v,
                        f,
                    )
            },
            FileType::FtsPackedFile => if opened.fts_l0_files@.contains_key(id) {
                self.fts_l0_files.contains(opened.fts_l0_files@[id])
            } else {
                self.fts_l1_files.contains(opened.fts_l1_files@[id])
            },
            FileType::FtsDedicatedFile => self.fts_l2_files.contains(opened.fts_l2_files@[id]),
            FileType::TxnChunk | FileType::Schema => false,
        }
    }
}

/// No file is lost when it is loaded: each is in its place afterwards, whatever its kind, and
/// nothing is left to load.
pub proof fn law_loaded_files_are_in_their_places(
    data: Data,
    files: Seq<(u64, FileMeta)>,
    opened: OpenedFiles,
    res: Data,
    i: int,
)
    requires
        data.wf(),
        0 <= i < files.len(),
        opened.has_place(files[i].0, files[i].1),
        res.reorders(data.loaded(files, opened)),
    ensures
        res.has_opened(files[i].0, files[i].1, opened),
        res.unloaded_tbls == Map::<u64, FileMeta>::empty(),
{
    let (id, fm) = files[i];
    let all = data.loaded(files, opened);
    match fm.file_type {
        FileType::Sst => if fm.level == 0 {
            let g = |id: u64, fm: FileMeta| opened.l0_tables@[id];
            let k = lemma_picked(files, |id: u64, fm: FileMeta| is_l0_table(fm), g, g, i);
            let t = opened.l0_tables@[id];
            assert(opened.l0s(files)[k] == t);
            lemma_second(data.l0_tbls, opened.l0s(files), t);
            law_newest_first(data.l0_tbls + opened.l0s(files));
            lemma_same_elements(data.l0_tbls + opened.l0s(files), all.l0_tbls, t);
        } else {
            let g = |id: u64, fm: FileMeta| opened.ln_tables@[id];
            let h = |id: u64, fm: FileMeta| fm.table_create(id);
            let k = lemma_picked(files, |id: u64, fm: FileMeta| is_ln_table(fm), g, h, i);
            let t = opened.ln_tables@[id];
            let c = fm.cf as int;
            let l = fm.level as int;
            let more = tables_for(opened.tables(files), table_places(files), c, l);
            assert(opened.tables(files)[k] == t);
            assert(table_places(files)[k] == fm.table_create(id));
            lemma_tables_for(opened.tables(files), table_places(files), c, l, k);
            let both = data.cfs[c][l - 1].tables + more;
            lemma_second(data.cfs[c][l - 1].tables, more, t);
            law_sorted_tables(both);
            lemma_same_elements(both, sorted_tables(both), t);
            assert(all.cfs[c][l - 1].tables == sorted_tables(both));
        },
        FileType::Columnar => {
            let g = |id: u64, fm: FileMeta| opened.col_files@[id];
            let h = |id: u64, fm: FileMeta| fm.columnar_create(id);
            let p = |id: u64, fm: FileMeta| fm.file_type is Columnar;
            let k = lemma_picked(files, p, g, h, i);
            let f = opened.col_files@[id];
            let l = fm.level as int;
            let more = files_for(opened.columnars(files), columnar_places(files), l);
            assert(opened.columnars(files)[k] == f);
            assert(columnar_places(files)[k] == fm.columnar_create(id));
            lemma_files_for(opened.columnars(files), columnar_places(files), l, k);
            lemma_second(data.col_levels.levels[l], more, f);
            assert(all.col_levels.levels[l] == data.col_levels.levels[l] + more);
            assert(res.col_levels.levels[l].to_multiset() == all.col_levels.levels[l].to_multiset());
            lemma_same_elements(all.col_levels.levels[l], res.col_levels.levels[l], f);
        },
        FileType::Blob => {
            let g = |id: u64, fm: FileMeta| opened.blob_tables@[id];
            let k = lemma_picked(files, |id: u64, fm: FileMeta| fm.file_type is Blob, g, g, i);
            assert(opened.blobs(files)[k] == opened.blob_tables@[id]);
            lemma_second(
                data.blob_tbls.filter(
                    |t: BlobTable| !ids_of_blobs(opened.blobs(files)).contains(t.id),
                ),
                opened.blobs(files),
                opened.blob_tables@[id],
            );
        },
        FileType::VectorIndex => {
            let g = |id: u64, fm: FileMeta| vector_of(opened.vec_index_files@[id]);
            let p = |id: u64, fm: FileMeta| fm.file_type is VectorIndex;
            let k = lemma_picked(files, p, g, g, i);
            let v = vector_of(opened.vec_index_files@[id]);
            assert(opened.vectors(files)[k] == v);
            assert forall|f: u64|
                vector_file_ids(v.files).contains(f) implies #[trigger] has_vector_file(
                res.vector_indexes,
                v,
                f,
            ) by {
                lemma_vectors_merged(data.vector_indexes, opened.vectors(files), k, f);
                lemma_same_bags(all.vector_indexes, res.vector_indexes, v, f);
            }
        },
        FileType::FtsPackedFile => if opened.fts_l0_files@.contains_key(id) {
            let g = |id: u64, fm: FileMeta| opened.fts_l0_files@[id];
            let p = |id: u64, fm: FileMeta|
                fm.file_type is FtsPackedFile && opened.fts_l0_files@.contains_key(id);
            let k = lemma_picked(files, p, g, g, i);
            assert(opened.fts_l0s(files)[k] == opened.fts_l0_files@[id]);
            lemma_second(data.fts_l0_files, opened.fts_l0s(files), opened.fts_l0_files@[id]);
        } else {
            let g = |id: u64, fm: FileMeta| opened.fts_l1_files@[id];
            let p = |id: u64, fm: FileMeta|
                fm.file_type is FtsPackedFile && !opened.fts_l0_files@.contains_key(id);
            let k = lemma_picked(files, p, g, g, i);
            assert(opened.fts_l1s(files)[k] == opened.fts_l1_files@[id]);
            lemma_second(data.fts_l1_files, opened.fts_l1s(files), opened.fts_l1_files@[id]);
        },
        FileType::FtsDedicatedFile => {
            let g = |id: u64, fm: FileMeta| opened.fts_l2_files@[id];
            let p = |id: u64, fm: FileMeta| fm.file_type is FtsDedicatedFile;
            let k = lemma_picked(files, p, g, g, i);
            let f = opened.fts_l2_files@[id];
            assert(opened.fts_l2s(files)[k] == f);
            lemma_second(data.fts_l2_files, opened.fts_l2s(files), f);
            lemma_same_elements(all.fts_l2_files, res.fts_l2_files, f);
        },
        FileType::TxnChunk | FileType::Schema => {},
    }
}

/// Each level of a shard knows the highest timestamp of its tables: an empty shard's, those of
/// the part of a split, of a merged shard and of one whose tables were loaded.
pub proof fn law_levels_know_their_highest_timestamp(
    data: Data,
    range: Range,
    inner_key_off: usize,
    span: pb::TableIdSpan,
    source: MergeSource,
    ids: Seq<i64>,
    files: Seq<(u64, FileMeta)>,
    opened: OpenedFiles,
)
    ensures
        Data::empty(range, inner_key_off).max_ts_known(),
        data.within(range, inner_key_off, span).max_ts_known(),
        data.merged(source, range, inner_key_off, ids).max_ts_known(),
        data.loaded(files, opened).max_ts_known(),
        forall|res: Data| #[trigger]
            res.reorders(data.loaded(files, opened)) ==> res.max_ts_known(),
        forall|res: Data| #[trigger]
            res.reorders_columns(data.merged(source, range, inner_key_off, ids))
                ==> res.max_ts_known(),
{
}

} // verus!
