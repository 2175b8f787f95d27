//! Vector indexes.
use vstd::multiset::Multiset;
use vstd::prelude::*;

use crate::lists::{contains_i64, contains_u64, retain_vec};
use crate::pb;

verus! {

/// A vector index of a table.
#[verifier::ext_equal]
pub struct Vector {
    /// Table.
    pub table_id: i64,
    /// Index.
    pub index_id: i64,
    /// Column.
    pub col_id: i64,
    /// Version of the data that the index covers.
    pub snap_version: u64,
    /// Its files.
    pub files: Seq<pb::VectorIndexFile>,
}

/// What an index holds.
pub open spec fn vector_of(v: pb::VectorIndex) -> Vector {
    Vector {
        table_id: v.table_id,
        index_id: v.index_id,
        col_id: v.col_id,
        snap_version: v.snap_version,
        files: v.files@,
    }
}

/// What each index of a list holds.
pub open spec fn vectors_of(s: Seq<pb::VectorIndex>) -> Seq<Vector> {
    Seq::new(s.len(), |i: int| vector_of(s[i]))
}

/// A vector index, with its files in no order.
#[verifier::ext_equal]
pub struct VectorBag {
    /// Table.
    pub table_id: i64,
    /// Index.
    pub index_id: i64,
    /// Column.
    pub col_id: i64,
    /// Version of the data that the index covers.
    pub snap_version: u64,
    /// Its files.
    pub files: Multiset<pb::VectorIndexFile>,
}

/// The indexes in no order, each with its files in no order.
pub open spec fn vector_bags(s: Seq<Vector>) -> Multiset<VectorBag> {
    Seq::new(s.len(), |i: int| bag_of(s[i])).to_multiset()
}

/// The index with its files in no order.
pub open spec fn bag_of(v: Vector) -> VectorBag {
    VectorBag {
        table_id: v.table_id,
        index_id: v.index_id,
        col_id: v.col_id,
        snap_version: v.snap_version,
        files: v.files.to_multiset(),
    }
}

/// The index with the ids of `v` is there and has the file.
pub open spec fn has_vector_file(s: Seq<Vector>, v: Vector, id: u64) -> bool {
    exists|j: int|
        0 <= j < s.len() && (#[trigger] s[j]).is_of(v.table_id, v.index_id, v.col_id)
            && vector_file_ids(s[j].files).contains(id)
}

/// The ids of files.
pub open spec fn vector_file_ids(s: Seq<pb::VectorIndexFile>) -> Seq<u64> {
    Seq::new(s.len(), |i: int| s[i].id)
}

impl Vector {
    /// It is the index of the given ids.
    pub open spec fn is_of(self, table_id: i64, index_id: i64, col_id: i64) -> bool {
        self.table_id == table_id && self.index_id == index_id && self.col_id == col_id
    }

    /// After an update of its files.
    pub open spec fn updated(self, u: pb::UpdateVectorIndex) -> Vector {
        Vector {
            snap_version: u.snap_version,
            files: self.files.filter(|f: pb::VectorIndexFile| !u.removed@.contains(f.id))
                + u.added@,
            ..self
        }
    }

    /// With the files of another that it has not.
    pub open spec fn merged(self, other: Vector) -> Vector {
        Vector {
            files: self.files + other.files.filter(
                |f: pb::VectorIndexFile| !vector_file_ids(self.files).contains(f.id),
            ),
            ..self
        }
    }
}

/// The indexes after an update: the first that it is of is changed; where there
/// is none, one with the added files comes last.
pub open spec fn vectors_updated(s: Seq<Vector>, u: pb::UpdateVectorIndex) -> Seq<Vector>
    decreases s.len(),
{
    if s.len() == 0 {
        seq![
            Vector {
                table_id: u.table_id,
                index_id: u.index_id,
                col_id: u.col_id,
                snap_version: u.snap_version,
                files: u.added@,
            },
        ]
    } else if s[0].is_of(u.table_id, u.index_id, u.col_id) {
        seq![s[0].updated(u)] + s.drop_first()
    } else {
        seq![s[0]] + vectors_updated(s.drop_first(), u)
    }
}

/// The indexes with one merged in: the first with its ids gets its files; where
/// there is none, it comes last.
pub open spec fn vectors_with(s: Seq<Vector>, v: Vector) -> Seq<Vector>
    decreases s.len(),
{
    if s.len() == 0 {
        seq![v]
    } else if s[0].is_of(v.table_id, v.index_id, v.col_id) {
        seq![s[0].merged(v)] + s.drop_first()
    } else {
        seq![s[0]] + vectors_with(s.drop_first(), v)
    }
}

/// The indexes with those of another list merged in, in order.
pub open spec fn vectors_merged(s: Seq<Vector>, other: Seq<Vector>) -> Seq<Vector>
    decreases other.len(),
{
    if other.len() == 0 {
        s
    } else {
        vectors_with(vectors_merged(s, other.drop_last()), other.last())
    }
}

/// The indexes of the listed tables.
pub open spec fn vectors_of_tables(s: Seq<Vector>, table_ids: Seq<i64>) -> Seq<Vector> {
    s.filter(|v: Vector| table_ids.contains(v.table_id))
}

/// A copy of the files.
pub fn copy_vector_files(v: &Vec<pb::VectorIndexFile>) -> (res: Vec<pb::VectorIndexFile>)
    ensures
        res@ == v@,
{
    let res = v.clone();
    assert(res@ =~= v@);
    res
}

/// A copy of an index.
pub fn copy_vector(v: &pb::VectorIndex) -> (res: pb::VectorIndex)
    ensures
        vector_of(res) == vector_of(*v),
{
    pb::VectorIndex {
        table_id: v.table_id,
        index_id: v.index_id,
        col_id: v.col_id,
        snap_version: v.snap_version,
        files: copy_vector_files(&v.files),
    }
}

/// A copy of the indexes.
pub fn copy_vectors(v: &Vec<pb::VectorIndex>) -> (res: Vec<pb::VectorIndex>)
    ensures
        vectors_of(res@) == vectors_of(v@),
{
    let mut res: Vec<pb::VectorIndex> = Vec::new();
    let mut i: usize = 0;
    while i < v.len()
        invariant
            i <= v@.len(),
            vectors_of(res@) =~= vectors_of(v@.take(i as int)),
        decreases v@.len() - i,
    {
        res.push(copy_vector(&v[i]));
        assert(vectors_of(res@) =~= vectors_of(v@.take(i as int)).push(vector_of(v@[i as int])));
        i = i + 1;
    }
    assert(v@.take(i as int) =~= v@);
    res
}

/// Whether the index has the given ids.
pub fn is_vector_of(v: &pb::VectorIndex, table_id: i64, index_id: i64, col_id: i64) -> (res: bool)
    ensures
        res == vector_of(*v).is_of(table_id, index_id, col_id),
{
    v.table_id == table_id && v.index_id == index_id && v.col_id == col_id
}

/// Whether the update is of the index.
pub fn is_matched_vector_index(v: &pb::VectorIndex, u: &pb::UpdateVectorIndex) -> (res: bool)
    ensures
        res == vector_of(*v).is_of(u.table_id, u.index_id, u.col_id),
{
    is_vector_of(v, u.table_id, u.index_id, u.col_id)
}

/// Whether both have the same ids.
pub fn is_same_vector_index(v: &pb::VectorIndex, other: &pb::VectorIndex) -> (res: bool)
    ensures
        res == vector_of(*v).is_of(other.table_id, other.index_id, other.col_id),
{
    is_vector_of(v, other.table_id, other.index_id, other.col_id)
}

/// The files whose id is not listed.
pub fn drop_vector_files(v: &Vec<pb::VectorIndexFile>, removed: &Vec<u64>) -> (res: Vec<
    pb::VectorIndexFile,
>)
    ensures
        res@ == v@.filter(|f: pb::VectorIndexFile| !removed@.contains(f.id)),
{
    let ghost p = |f: pb::VectorIndexFile| !removed@.contains(f.id);
    let keep = |f: &pb::VectorIndexFile| -> (b: bool)
        ensures
            b == !removed@.contains(f.id),
        {
            !contains_u64(removed, f.id)
        };
    retain_vec(copy_vector_files(v), keep, Ghost(p))
}

/// The ids of the files.
pub fn ids_of_vector_files(v: &Vec<pb::VectorIndexFile>) -> (res: Vec<u64>)
    ensures
        res@ == vector_file_ids(v@),
{
    let mut res: Vec<u64> = Vec::new();
    let mut i: usize = 0;
    while i < v.len()
        invariant
            i <= v@.len(),
            res@ =~= vector_file_ids(v@.take(i as int)),
        decreases v@.len() - i,
    {
        res.push(v[i].id);
        i = i + 1;
    }
    assert(v@.take(i as int) =~= v@);
    res
}

/// Replaces one index of a list.
fn set_vector(v: &mut Vec<pb::VectorIndex>, i: usize, x: pb::VectorIndex)
    requires
        i < old(v)@.len(),
    ensures
        vectors_of(final(v)@) == vectors_of(old(v)@).update(i as int, vector_of(x)),
{
    let ghost before = v@;
    v.set(i, x);
    assert(vectors_of(v@) =~= vectors_of(before).update(i as int, vector_of(x)));
}

/// Applies an update of the files of an index.
pub fn update_vectors(v: &mut Vec<pb::VectorIndex>, u: &pb::UpdateVectorIndex)
    ensures
        vectors_of(final(v)@) == vectors_updated(vectors_of(old(v)@), *u),
{
    let ghost s = vectors_of(v@);
    let mut i: usize = 0;
    assert(s.skip(0) =~= s);
    assert(s.take(0) + vectors_updated(s.skip(0), *u) =~= vectors_updated(s, *u));
    while i < v.len()
        invariant
            i <= v@.len(),
            s == vectors_of(v@),
            *v == *old(v),
            s.take(i as int) + vectors_updated(s.skip(i as int), *u) == vectors_updated(s, *u),
        decreases v@.len() - i,
    {
        if is_matched_vector_index(&v[i], u) {
            let old_files = drop_vector_files(&v[i].files, &u.removed);
            let mut files = old_files;
            let ghost kept = files@;
            files.extend_from_slice(u.added.as_slice());
            assert(files@ =~= kept + u.added@);
            let x = pb::VectorIndex {
                table_id: v[i].table_id,
                index_id: v[i].index_id,
                col_id: v[i].col_id,
                snap_version: u.snap_version,
                files,
            };
            set_vector(v, i, x);
            proof {
                let rest = s.skip(i as int);
                assert(rest[0] == s[i as int]);
                assert(vector_of(x) =~= s[i as int].updated(*u));
                assert(vectors_of(v@) =~= s.take(i as int) + (seq![rest[0].updated(*u)]
                    + rest.drop_first()));
            }
            return;
        }
        proof {
            let rest = s.skip(i as int);
            assert(rest[0] == s[i as int]);
            assert(rest.drop_first() =~= s.skip(i + 1));
            assert(s.take(i + 1) + vectors_updated(s.skip(i + 1), *u) =~= s.take(i as int) + (
            seq![rest[0]] + vectors_updated(rest.drop_first(), *u)));
        }
        i = i + 1;
    }
    let x = pb::VectorIndex {
        table_id: u.table_id,
        index_id: u.index_id,
        col_id: u.col_id,
        snap_version: u.snap_version,
        files: copy_vector_files(&u.added),
    };
    v.push(x);
    proof {
        assert(s.skip(i as int) =~= Seq::empty());
        assert(vectors_of(v@) =~= s.push(vector_of(x)));
        assert(vectors_of(v@) =~= s.take(i as int) + vectors_updated(s.skip(i as int), *u));
    }
}

/// Merges one index into a list.
pub fn merge_vector(v: &mut Vec<pb::VectorIndex>, other: &pb::VectorIndex)
    ensures
        vectors_of(final(v)@) == vectors_with(vectors_of(old(v)@), vector_of(*other)),
{
    let ghost s = vectors_of(v@);
    let ghost o = vector_of(*other);
    let mut i: usize = 0;
    assert(s.skip(0) =~= s);
    assert(s.take(0) + vectors_with(s.skip(0), o) =~= vectors_with(s, o));
    while i < v.len()
        invariant
            i <= v@.len(),
            s == vectors_of(v@),
            o == vector_of(*other),
            *v == *old(v),
            s.take(i as int) + vectors_with(s.skip(i as int), o) == vectors_with(s, o),
        decreases v@.len() - i,
    {
        if is_same_vector_index(&v[i], other) {
            let ids = ids_of_vector_files(&v[i].files);
            let mut more = drop_vector_files(&other.files, &ids);
            let mut files = copy_vector_files(&v[i].files);
            files.append(&mut more);
            let x = pb::VectorIndex {
                table_id: v[i].table_id,
                index_id: v[i].index_id,
                col_id: v[i].col_id,
                snap_version: v[i].snap_version,
                files,
            };
            set_vector(v, i, x);
            proof {
                let rest = s.skip(i as int);
                assert(rest[0] == s[i as int]);
                assert(vector_of(x) =~= s[i as int].merged(o));
                assert(vectors_of(v@) =~= s.take(i as int) + (seq![rest[0].merged(o)]
                    + rest.drop_first()));
            }
            return;
        }
        proof {
            let rest = s.skip(i as int);
            assert(rest[0] == s[i as int]);
            assert(rest.drop_first() =~= s.skip(i + 1));
            assert(s.take(i + 1) + vectors_with(s.skip(i + 1), o) =~= s.take(i as int) + (
            seq![rest[0]] + vectors_with(rest.drop_first(), o)));
        }
        i = i + 1;
    }
    v.push(copy_vector(other));
    proof {
        assert(s.skip(i as int) =~= Seq::empty());
        assert(vectors_of(v@) =~= s.push(o));
        assert(vectors_of(v@) =~= s.take(i as int) + vectors_with(s.skip(i as int), o));
    }
}

/// Merges the indexes of another list.
pub fn merge_vectors(v: &mut Vec<pb::VectorIndex>, other: &Vec<pb::VectorIndex>)
    ensures
        vectors_of(final(v)@) == vectors_merged(vectors_of(old(v)@), vectors_of(other@)),
{
    let ghost before = vectors_of(v@);
    let ghost o = vectors_of(other@);
    let mut i: usize = 0;
    assert(o.take(0) =~= Seq::empty());
    while i < other.len()
        invariant
            i <= other@.len(),
            o == vectors_of(other@),
            vectors_of(v@) == vectors_merged(before, o.take(i as int)),
        decreases other@.len() - i,
    {
        assert(o.take(i + 1).drop_last() =~= o.take(i as int));
        assert(o.take(i + 1).last() == vector_of(other@[i as int]));
        merge_vector(v, &other[i]);
        i = i + 1;
    }
    assert(o.take(i as int) =~= o);
}

/// Keeps the indexes of the listed tables.
pub fn retain_vectors(v: &mut Vec<pb::VectorIndex>, table_ids: &Vec<i64>)
    ensures
        vectors_of(final(v)@) == vectors_of_tables(vectors_of(old(v)@), table_ids@),
{
    let ghost s = vectors_of(v@);
    let ghost p = |v: Vector| table_ids@.contains(v.table_id);
    let mut res: Vec<pb::VectorIndex> = Vec::new();
    let mut i: usize = 0;
    proof {
        reveal(Seq::filter);
        assert(s.take(0).filter(p) =~= Seq::empty());
        assert(vectors_of(res@) =~= s.take(0).filter(p));
    }
    while i < v.len()
        invariant
            i <= v@.len(),
            s == vectors_of(v@),
            p == (|v: Vector| table_ids@.contains(v.table_id)),
            vectors_of(res@) == s.take(i as int).filter(p),
        decreases v@.len() - i,
    {
        proof {
            reveal(Seq::filter);
            assert(s.take(i + 1).drop_last() =~= s.take(i as int));
            assert(s.take(i + 1).last() == vector_of(v@[i as int]));
        }
        if contains_i64(table_ids, v[i].table_id) {
            let ghost before = res@;
            res.push(copy_vector(&v[i]));
            assert(vectors_of(res@) =~= vectors_of(before).push(vector_of(v@[i as int])));
        }
        i = i + 1;
    }
    assert(s.take(i as int) =~= s);
    *v = res;
}

proof fn lemma_merged_files(a: Vector, b: Vector, id: u64)
    requires
        vector_file_ids(a.files).contains(id) || vector_file_ids(b.files).contains(id),
    ensures
        vector_file_ids(a.merged(b).files).contains(id),
{
    broadcast use vstd::seq_lib::group_filter_ensures;

    let all = a.merged(b).files;
    let ids = vector_file_ids(all);
    let p = |f: pb::VectorIndexFile| !vector_file_ids(a.files).contains(f.id);
    if vector_file_ids(a.files).contains(id) {
        let j = vector_file_ids(a.files).index_of(id);
        assert(ids[j] == id);
    } else {
        let j = vector_file_ids(b.files).index_of(id);
        assert(p(b.files[j]));
        assert(b.files.filter(p).contains(b.files[j]));
        let k = b.files.filter(p).index_of(b.files[j]);
        assert(ids[a.files.len() + k] == id);
    }
}

/// An index keeps its files when another is merged in.
pub proof fn lemma_vectors_with(s: Seq<Vector>, v: Vector, of: Vector, id: u64)
    requires
        has_vector_file(s, of, id) || (of == v && vector_file_ids(v.files).contains(id)),
    ensures
        has_vector_file(vectors_with(s, v), of, id),
    decreases s.len(),
{
    let all = vectors_with(s, v);
    if s.len() == 0 {
        assert(all[0].is_of(of.table_id, of.index_id, of.col_id));
    } else {
        let rest = s.drop_first();
        let here = s[0].is_of(of.table_id, of.index_id, of.col_id) && vector_file_ids(
            s[0].files,
        ).contains(id);
        if has_vector_file(s, of, id) && !here {
            let j = choose|j: int|
                0 <= j < s.len() && (#[trigger] s[j]).is_of(of.table_id, of.index_id, of.col_id)
                    && vector_file_ids(s[j].files).contains(id);
            assert(rest[j - 1] == s[j]);
            assert(has_vector_file(rest, of, id));
        }
        if s[0].is_of(v.table_id, v.index_id, v.col_id) {
            if here || of == v && vector_file_ids(v.files).contains(id) {
                lemma_merged_files(s[0], v, id);
                assert(all[0].is_of(of.table_id, of.index_id, of.col_id));
            } else {
                let j = choose|j: int|
                    0 <= j < rest.len() && (#[trigger] rest[j]).is_of(
                        of.table_id,
                        of.index_id,
                        of.col_id,
                    ) && vector_file_ids(rest[j].files).contains(id);
                assert(all[j + 1] == rest[j]);
            }
        } else if here {
            assert(all[0] == s[0]);
        } else {
            lemma_vectors_with(rest, v, of, id);
            let part = vectors_with(rest, v);
            let j = choose|j: int|
                0 <= j < part.len() && (#[trigger] part[j]).is_of(
                    of.table_id,
                    of.index_id,
                    of.col_id,
                ) && vector_file_ids(part[j].files).contains(id);
            assert(all[j + 1] == part[j]);
        }
    }
}

/// Merging brings the files of each index.
pub proof fn lemma_vectors_merged(s: Seq<Vector>, other: Seq<Vector>, k: int, id: u64)
    requires
        0 <= k < other.len(),
        vector_file_ids(other[k].files).contains(id),
    ensures
        has_vector_file(vectors_merged(s, other), other[k], id),
    decreases other.len(),
{
    if k < other.len() - 1 {
        lemma_vectors_merged(s, other.drop_last(), k, id);
        assert(other.drop_last()[k] == other[k]);
    }
    lemma_vectors_with(
        vectors_merged(s, other.drop_last()),
        other.last(),
        other[k],
        id,
    );
}

/// What an index has does not depend on the order.
pub proof fn lemma_same_bags(a: Seq<Vector>, b: Seq<Vector>, of: Vector, id: u64)
    requires
        vector_bags(a) == vector_bags(b),
        has_vector_file(a, of, id),
    ensures
        has_vector_file(b, of, id),
{
    broadcast use vstd::seq_lib::group_to_multiset_ensures;

    let j = choose|j: int|
        0 <= j < a.len() && (#[trigger] a[j]).is_of(of.table_id, of.index_id, of.col_id)
            && vector_file_ids(a[j].files).contains(id);
    let x = Seq::new(a.len(), |i: int| bag_of(a[i]));
    let y = Seq::new(b.len(), |i: int| bag_of(b[i]));
    assert(x[j] == bag_of(a[j]));
    assert(x.contains(x[j]));
    assert(x.to_multiset().contains(x[j]));
    assert(y.to_multiset().contains(x[j]));
    assert(y.contains(x[j]));
    let k = y.index_of(x[j]);
    assert(bag_of(b[k]) == bag_of(a[j]));
    let m = vector_file_ids(a[j].files).index_of(id);
    let f = a[j].files[m];
    assert(a[j].files.contains(f));
    assert(a[j].files.to_multiset().contains(f));
    assert(b[k].files.to_multiset().contains(f));
    assert(b[k].files.contains(f));
    let n = b[k].files.index_of(f);
    assert(vector_file_ids(b[k].files)[n] == id);
    assert(b[k].is_of(of.table_id, of.index_id, of.col_id));
}

} // verus!
