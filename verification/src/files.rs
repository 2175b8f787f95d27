//! Maps from file ids to what is known of the files.
use std::collections::HashMap;

use vstd::prelude::*;
use vstd::std_specs::iter::IteratorSpec;

use crate::file_meta::{
    blob_meta, columnar_meta, fts_ded_meta, fts_packed_meta, l0_meta, table_meta, vector_meta,
    FileMeta, FileType,
};
use crate::lists::{lemma_filter_distinct, lemma_filter_set};
use crate::pb;

verus! {

broadcast use vstd::std_specs::hash::group_hash_axioms;

/// The map with the files added in order; of two with one id, the later stays.
pub open spec fn with_files(m: Map<u64, FileMeta>, s: Seq<(u64, FileMeta)>) -> Map<u64, FileMeta>
    decreases s.len(),
{
    if s.len() == 0 {
        m
    } else {
        with_files(m, s.drop_last()).insert(s.last().0, s.last().1)
    }
}

/// The files that satisfy `p`.
pub open spec fn files_where(
    m: Map<u64, FileMeta>,
    p: spec_fn(FileMeta) -> bool,
) -> Map<u64, FileMeta> {
    Map::new(|k: u64| m.contains_key(k) && p(m[k]), |k: u64| m[k])
}

/// The deletion of `k` is asked for, at the level that it is at.
pub open spec fn deleted_at(dels: Seq<(u64, u32)>, k: u64, level: u32) -> bool {
    dels.contains((k, level))
}

/// The map without the files of kind `ft` that the list names with their level.
pub open spec fn without_files(
    m: Map<u64, FileMeta>,
    dels: Seq<(u64, u32)>,
    ft: FileType,
) -> Map<u64, FileMeta> {
    Map::new(
        |k: u64|
            m.contains_key(k) && !(m[k].file_type == ft && deleted_at(
                dels,
                k,
                m[k].level as u32,
            )),
        |k: u64| m[k],
    )
}

/// The map without the listed files.
pub open spec fn without_ids(m: Map<u64, FileMeta>, ids: Seq<u64>) -> Map<u64, FileMeta> {
    Map::new(|k: u64| m.contains_key(k) && !ids.contains(k), |k: u64| m[k])
}

/// The file is there, at the level and of the kind.
pub open spec fn has_file(m: Map<u64, FileMeta>, id: u64, level: u32, ft: FileType) -> bool {
    m.contains_key(id) && m[id].at(level, ft)
}

/// Adds the files.
pub fn insert_files(m: &mut HashMap<u64, FileMeta>, files: &Vec<(u64, FileMeta)>)
    ensures
        final(m)@ == with_files(old(m)@, files@),
{
    let ghost before = m@;
    let mut i: usize = 0;
    assert(files@.take(0) =~= Seq::empty());
    while i < files.len()
        invariant
            i <= files@.len(),
            m@ == with_files(before, files@.take(i as int)),
        decreases files@.len() - i,
    {
        assert(files@.take(i + 1).drop_last() =~= files@.take(i as int));
        m.insert(files[i].0, files[i].1.clone());
        i = i + 1;
    }
    assert(files@.take(i as int) =~= files@);
}

/// The ids of the files, in no particular order.
pub fn file_ids(m: &HashMap<u64, FileMeta>) -> (res: Vec<u64>)
    ensures
        res@.no_duplicates(),
        res@.to_set() == m@.dom(),
{
    let mut res: Vec<u64> = Vec::new();
    let ghost all = vstd::std_specs::hash::spec_keys_iter(m).remaining();
    for k in it: m.keys()
        invariant
            it.seq() == all,
            res@ == all.take(it.index()).unref(),
    {
        res.push(*k);
    }
    assert(res@ =~= all.unref());
    res
}

/// The ids of the files that satisfy `p`.
pub open spec fn ids_with(m: Map<u64, FileMeta>, p: spec_fn(u64, FileMeta) -> bool) -> Set<u64> {
    m.dom().filter(|id: u64| p(id, m[id]))
}

/// The ids of the files for which `keep` says so, in no particular order.
pub(crate) fn ids_where<F: Fn(u64, &FileMeta) -> bool>(
    m: &HashMap<u64, FileMeta>,
    keep: F,
    Ghost(p): Ghost<spec_fn(u64, FileMeta) -> bool>,
) -> (res: Vec<u64>)
    requires
        forall|id: u64, fm: FileMeta| call_requires(keep, (id, &fm)),
        forall|id: u64, fm: FileMeta, b: bool|
            call_ensures(keep, (id, &fm), b) ==> b == p(id, fm),
    ensures
        res@.no_duplicates(),
        res@.to_set() == ids_with(m@, p),
{
    let ids = file_ids(m);
    let ghost q = |id: u64| p(id, m@[id]);
    let mut res: Vec<u64> = Vec::new();
    let mut i: usize = 0;
    proof {
        reveal(Seq::filter);
        assert(ids@.take(0).filter(q) =~= Seq::empty());
    }
    while i < ids.len()
        invariant
            i <= ids@.len(),
            ids@.to_set() == m@.dom(),
            q == (|id: u64| p(id, m@[id])),
            forall|id: u64, fm: FileMeta| call_requires(keep, (id, &fm)),
            forall|id: u64, fm: FileMeta, b: bool|
                call_ensures(keep, (id, &fm), b) ==> b == p(id, fm),
            res@ == ids@.take(i as int).filter(q),
        decreases ids@.len() - i,
    {
        proof {
            reveal(Seq::filter);
            assert(ids@.take(i + 1).drop_last() =~= ids@.take(i as int));
            assert(ids@.to_set().contains(ids@[i as int]));
        }
        if keep(ids[i], m.get(&ids[i]).unwrap()) {
            res.push(ids[i]);
        }
        i = i + 1;
    }
    proof {
        assert(ids@.take(i as int) =~= ids@);
        lemma_filter_set(ids@, q);
        lemma_filter_distinct(ids@, q);
        assert(res@.to_set() =~= ids_with(m@, p));
    }
    res
}

/// Keeps the files for which `keep` says so.
pub(crate) fn retain_files<F: Fn(&FileMeta) -> bool>(
    m: &mut HashMap<u64, FileMeta>,
    keep: F,
    Ghost(p): Ghost<spec_fn(FileMeta) -> bool>,
)
    requires
        forall|fm: FileMeta| call_requires(keep, (&fm,)),
        forall|fm: FileMeta, b: bool| call_ensures(keep, (&fm,), b) ==> b == p(fm),
    ensures
        final(m)@ == files_where(old(m)@, p),
{
    let ghost before = m@;
    let ids = file_ids(m);
    let mut i: usize = 0;
    while i < ids.len()
        invariant
            i <= ids@.len(),
            ids@.no_duplicates(),
            ids@.to_set() == before.dom(),
            forall|fm: FileMeta| call_requires(keep, (&fm,)),
            forall|fm: FileMeta, b: bool| call_ensures(keep, (&fm,), b) ==> b == p(fm),
            forall|k: u64| #[trigger]
                m@.contains_key(k) <==> before.contains_key(k) && (p(before[k]) || !ids@.take(
                    i as int,
                ).contains(k)),
            forall|k: u64| #[trigger] m@.contains_key(k) ==> m@[k] == before[k],
        decreases ids@.len() - i,
    {
        let id = ids[i];
        let ghost now = m@;
        assert(ids@.to_set().contains(id)) by {
            assert(ids@[i as int] == id);
        }
        assert(!ids@.take(i as int).contains(id));
        assert(now.contains_key(id));
        let fm = m.get(&id).unwrap();
        let kept = keep(fm);
        assert(kept == p(before[id]));
        if !kept {
            m.remove(&id);
        }
        proof {
            let some = ids@.take(i as int);
            let more = ids@.take(i + 1);
            assert(more =~= some.push(id));
            assert forall|k: u64| more.contains(k) <==> some.contains(k) || k == id by {
                if some.contains(k) {
                    let j = choose|j: int| 0 <= j < some.len() && some[j] == k;
                    assert(more[j] == k);
                }
                assert(more[i as int] == id);
            }
        }
        i = i + 1;
    }
    proof {
        assert(ids@.take(i as int) =~= ids@);
        assert forall|k: u64| before.contains_key(k) implies ids@.contains(k) by {
            assert(ids@.to_set().contains(k));
        }
        assert(m@ =~= files_where(before, p));
    }
}

/// Removes the files of kind `ft` that are at the level that the list says.
pub fn delete_files(m: &mut HashMap<u64, FileMeta>, dels: &Vec<(u64, u32)>, ft: FileType)
    ensures
        final(m)@ == without_files(old(m)@, dels@, ft),
{
    let ghost before = m@;
    let mut i: usize = 0;
    assert(m@ =~= without_files(before, dels@.take(0), ft));
    while i < dels.len()
        invariant
            i <= dels@.len(),
            m@ == without_files(before, dels@.take(i as int), ft),
        decreases dels@.len() - i,
    {
        let (id, level) = dels[i];
        let ghost now = m@;
        let at_level = match m.get(&id) {
            Some(fm) => fm.file_type == ft && fm.level as u32 == level,
            None => false,
        };
        if at_level {
            m.remove(&id);
        }
        proof {
            let some = dels@.take(i as int);
            let more = dels@.take(i + 1);
            assert(more =~= some.push((id, level)));
            assert forall|x: (u64, u32)| #[trigger] more.contains(x) <==> some.contains(x) || x == (
                id,
                level,
            ) by {
                if some.contains(x) {
                    let j = choose|j: int| 0 <= j < some.len() && some[j] == x;
                    assert(more[j] == x);
                }
                assert(more[i as int] == (id, level));
            }
            assert(m@ =~= without_files(before, more, ft));
        }
        i = i + 1;
    }
    assert(dels@.take(i as int) =~= dels@);
}

/// Removes the listed files.
pub fn remove_ids(m: &mut HashMap<u64, FileMeta>, ids: &Vec<u64>)
    ensures
        final(m)@ == without_ids(old(m)@, ids@),
{
    let ghost before = m@;
    let mut i: usize = 0;
    assert(m@ =~= without_ids(before, ids@.take(0)));
    while i < ids.len()
        invariant
            i <= ids@.len(),
            m@ == without_ids(before, ids@.take(i as int)),
        decreases ids@.len() - i,
    {
        let id = ids[i];
        m.remove(&id);
        proof {
            let some = ids@.take(i as int);
            let more = ids@.take(i + 1);
            assert(more =~= some.push(id));
            assert forall|x: u64| #[trigger] more.contains(x) <==> some.contains(x) || x == id by {
                if some.contains(x) {
                    let j = choose|j: int| 0 <= j < some.len() && some[j] == x;
                    assert(more[j] == x);
                }
                assert(more[i as int] == id);
            }
            assert(m@ =~= without_ids(before, more));
        }
        i = i + 1;
    }
    assert(ids@.take(i as int) =~= ids@);
}

/// Whether the file is there, at the level and of the kind.
pub fn file_is_at(m: &HashMap<u64, FileMeta>, id: u64, level: u32, ft: FileType) -> (res: bool)
    ensures
        res == has_file(m@, id, level, ft),
{
    match m.get(&id) {
        Some(fm) => fm.file_type == ft && fm.level as u32 == level,
        None => false,
    }
}

/// The listed deletions with their levels.
pub open spec fn dels_of(v: Seq<pb::TableDelete>) -> Seq<(u64, u32)> {
    Seq::new(v.len(), |i: int| (v[i].id, v[i].level))
}

/// The listed deletions, all at one level.
pub open spec fn dels_at(v: Seq<u64>, level: u32) -> Seq<(u64, u32)> {
    Seq::new(v.len(), |i: int| (v[i], level))
}

/// The listed deletions with their levels.
pub fn table_dels(v: &Vec<pb::TableDelete>) -> (res: Vec<(u64, u32)>)
    ensures
        res@ == dels_of(v@),
{
    let mut res: Vec<(u64, u32)> = Vec::new();
    let mut i: usize = 0;
    while i < v.len()
        invariant
            i <= v@.len(),
            res@.len() == i,
            forall|j: int| 0 <= j < i ==> #[trigger] res@[j] == (v@[j].id, v@[j].level),
        decreases v@.len() - i,
    {
        res.push((v[i].id, v[i].level));
        i = i + 1;
    }
    assert(res@ =~= dels_of(v@));
    res
}

/// The listed deletions, all at one level.
pub fn id_dels(v: &Vec<u64>, level: u32) -> (res: Vec<(u64, u32)>)
    ensures
        res@ == dels_at(v@, level),
{
    let mut res: Vec<(u64, u32)> = Vec::new();
    let mut i: usize = 0;
    while i < v.len()
        invariant
            i <= v@.len(),
            res@.len() == i,
            forall|j: int| 0 <= j < i ==> #[trigger] res@[j] == (v@[j], level),
        decreases v@.len() - i,
    {
        res.push((v[i], level));
        i = i + 1;
    }
    assert(res@ =~= dels_at(v@, level));
    res
}

/// The metas of tables of level 0.
pub open spec fn l0_entries_of(v: Seq<pb::L0Create>) -> Seq<(u64, FileMeta)> {
    Seq::new(v.len(), |i: int| (v[i].id, l0_meta(v[i])))
}

/// The metas of tables of level 0.
pub fn l0_entries(v: &Vec<pb::L0Create>) -> (res: Vec<(u64, FileMeta)>)
    ensures
        res@ == l0_entries_of(v@),
{
    let mut res: Vec<(u64, FileMeta)> = Vec::new();
    let mut i: usize = 0;
    while i < v.len()
        invariant
            i <= v@.len(),
            res@ == l0_entries_of(v@.take(i as int)),
        decreases v@.len() - i,
    {
        res.push((v[i].id, FileMeta::from_l0_table(&v[i])));
        assert(res@ =~= l0_entries_of(v@.take(i + 1)));
        i = i + 1;
    }
    assert(v@.take(i as int) =~= v@);
    res
}

/// The metas of tables.
pub open spec fn table_entries_of(v: Seq<pb::TableCreate>) -> Seq<(u64, FileMeta)> {
    Seq::new(v.len(), |i: int| (v[i].id, table_meta(v[i])))
}

/// The metas of tables.
pub fn table_entries(v: &Vec<pb::TableCreate>) -> (res: Vec<(u64, FileMeta)>)
    ensures
        res@ == table_entries_of(v@),
{
    let mut res: Vec<(u64, FileMeta)> = Vec::new();
    let mut i: usize = 0;
    while i < v.len()
        invariant
            i <= v@.len(),
            res@ == table_entries_of(v@.take(i as int)),
        decreases v@.len() - i,
    {
        res.push((v[i].id, FileMeta::from_table(&v[i])));
        assert(res@ =~= table_entries_of(v@.take(i + 1)));
        i = i + 1;
    }
    assert(v@.take(i as int) =~= v@);
    res
}

/// The metas of blob tables.
pub open spec fn blob_entries_of(v: Seq<pb::BlobCreate>) -> Seq<(u64, FileMeta)> {
    Seq::new(v.len(), |i: int| (v[i].id, blob_meta(v[i])))
}

/// The metas of blob tables.
pub fn blob_entries(v: &Vec<pb::BlobCreate>) -> (res: Vec<(u64, FileMeta)>)
    ensures
        res@ == blob_entries_of(v@),
{
    let mut res: Vec<(u64, FileMeta)> = Vec::new();
    let mut i: usize = 0;
    while i < v.len()
        invariant
            i <= v@.len(),
            res@ == blob_entries_of(v@.take(i as int)),
        decreases v@.len() - i,
    {
        res.push((v[i].id, FileMeta::from_blob_table(&v[i])));
        assert(res@ =~= blob_entries_of(v@.take(i + 1)));
        i = i + 1;
    }
    assert(v@.take(i as int) =~= v@);
    res
}

/// The metas of columnar files.
pub open spec fn columnar_entries_of(v: Seq<pb::ColumnarCreate>) -> Seq<(u64, FileMeta)> {
    Seq::new(v.len(), |i: int| (v[i].id, columnar_meta(v[i])))
}

/// The metas of columnar files.
pub fn columnar_entries(v: &Vec<pb::ColumnarCreate>) -> (res: Vec<(u64, FileMeta)>)
    ensures
        res@ == columnar_entries_of(v@),
{
    let mut res: Vec<(u64, FileMeta)> = Vec::new();
    let mut i: usize = 0;
    while i < v.len()
        invariant
            i <= v@.len(),
            res@ == columnar_entries_of(v@.take(i as int)),
        decreases v@.len() - i,
    {
        res.push((v[i].id, FileMeta::from_columnar_table(&v[i])));
        assert(res@ =~= columnar_entries_of(v@.take(i + 1)));
        i = i + 1;
    }
    assert(v@.take(i as int) =~= v@);
    res
}

/// The metas of files of a vector index.
pub open spec fn vector_entries_of(v: Seq<pb::VectorIndexFile>) -> Seq<(u64, FileMeta)> {
    Seq::new(v.len(), |i: int| (v[i].id, vector_meta(v[i])))
}

/// The metas of files of a vector index.
pub fn vector_entries(v: &Vec<pb::VectorIndexFile>) -> (res: Vec<(u64, FileMeta)>)
    ensures
        res@ == vector_entries_of(v@),
{
    let mut res: Vec<(u64, FileMeta)> = Vec::new();
    let mut i: usize = 0;
    while i < v.len()
        invariant
            i <= v@.len(),
            res@ == vector_entries_of(v@.take(i as int)),
        decreases v@.len() - i,
    {
        res.push((v[i].id, FileMeta::from_vector_index_file(&v[i])));
        assert(res@ =~= vector_entries_of(v@.take(i + 1)));
        i = i + 1;
    }
    assert(v@.take(i as int) =~= v@);
    res
}

/// The metas of full text files of level 0.
pub open spec fn fts_l0_entries_of(v: Seq<pb::FtsPackedFileInfo>) -> Seq<(u64, FileMeta)> {
    Seq::new(v.len(), |i: int| (v[i].id, fts_packed_meta(v[i], 0)))
}

/// The metas of full text files of level 0.
pub fn fts_l0_entries(v: &Vec<pb::FtsPackedFileInfo>) -> (res: Vec<(u64, FileMeta)>)
    ensures
        res@ == fts_l0_entries_of(v@),
{
    let mut res: Vec<(u64, FileMeta)> = Vec::new();
    let mut i: usize = 0;
    while i < v.len()
        invariant
            i <= v@.len(),
            res@ == fts_l0_entries_of(v@.take(i as int)),
        decreases v@.len() - i,
    {
        res.push((v[i].id, FileMeta::from_fts_l0_file(&v[i])));
        assert(res@ =~= fts_l0_entries_of(v@.take(i + 1)));
        i = i + 1;
    }
    assert(v@.take(i as int) =~= v@);
    res
}

/// The metas of full text files of level 1.
pub open spec fn fts_l1_entries_of(v: Seq<pb::FtsPackedFileInfo>) -> Seq<(u64, FileMeta)> {
    Seq::new(v.len(), |i: int| (v[i].id, fts_packed_meta(v[i], 1)))
}

/// The metas of full text files of level 1.
pub fn fts_l1_entries(v: &Vec<pb::FtsPackedFileInfo>) -> (res: Vec<(u64, FileMeta)>)
    ensures
        res@ == fts_l1_entries_of(v@),
{
    let mut res: Vec<(u64, FileMeta)> = Vec::new();
    let mut i: usize = 0;
    while i < v.len()
        invariant
            i <= v@.len(),
            res@ == fts_l1_entries_of(v@.take(i as int)),
        decreases v@.len() - i,
    {
        res.push((v[i].id, FileMeta::from_fts_l1_file(&v[i])));
        assert(res@ =~= fts_l1_entries_of(v@.take(i + 1)));
        i = i + 1;
    }
    assert(v@.take(i as int) =~= v@);
    res
}

/// The metas of full text files of level 2.
pub open spec fn fts_l2_entries_of(v: Seq<pb::FtsDedFileInfo>) -> Seq<(u64, FileMeta)> {
    Seq::new(v.len(), |i: int| (v[i].id, fts_ded_meta(v[i])))
}

/// The metas of full text files of level 2.
pub fn fts_l2_entries(v: &Vec<pb::FtsDedFileInfo>) -> (res: Vec<(u64, FileMeta)>)
    ensures
        res@ == fts_l2_entries_of(v@),
{
    let mut res: Vec<(u64, FileMeta)> = Vec::new();
    let mut i: usize = 0;
    while i < v.len()
        invariant
            i <= v@.len(),
            res@ == fts_l2_entries_of(v@.take(i as int)),
        decreases v@.len() - i,
    {
        res.push((v[i].id, FileMeta::from_fts_l2_file(&v[i])));
        assert(res@ =~= fts_l2_entries_of(v@.take(i + 1)));
        i = i + 1;
    }
    assert(v@.take(i as int) =~= v@);
    res
}

/// The map with the files of the vector indexes added.
pub open spec fn with_vectors(
    m: Map<u64, FileMeta>,
    v: Seq<pb::VectorIndex>,
) -> Map<u64, FileMeta>
    decreases v.len(),
{
    if v.len() == 0 {
        m
    } else {
        with_files(with_vectors(m, v.drop_last()), vector_entries_of(v.last().files@))
    }
}

/// Adds the files of the vector indexes.
pub fn insert_vectors(m: &mut HashMap<u64, FileMeta>, v: &Vec<pb::VectorIndex>)
    ensures
        final(m)@ == with_vectors(old(m)@, v@),
{
    let ghost before = m@;
    let mut i: usize = 0;
    assert(v@.take(0) =~= Seq::empty());
    while i < v.len()
        invariant
            i <= v@.len(),
            m@ == with_vectors(before, v@.take(i as int)),
        decreases v@.len() - i,
    {
        assert(v@.take(i + 1).drop_last() =~= v@.take(i as int));
        let files = vector_entries(&v[i].files);
        insert_files(m, &files);
        i = i + 1;
    }
    assert(v@.take(i as int) =~= v@);
}

} // verus!
