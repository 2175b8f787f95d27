//! What vector indexes hold once shards are merged, split or kept for some tables.
use vstd::prelude::*;

use crate::bound::{Bound, BoundedDataSet};
use crate::buf::content;
use crate::key::{lex_le, lex_lt};
use crate::lists::lemma_filtered;
use crate::meta::split::vectors_within;
use crate::pb;
use crate::shard::merge::{vectors_joined, vectors_raised};
use crate::vectors::{
    vector_file_ids, vectors_merged, vectors_of_tables, vectors_with, Vector,
};

verus! {

/// What tells an index: its table, its own id and its column.
pub struct IndexKey {
    /// Table.
    pub table_id: i64,
    /// Index.
    pub index_id: i64,
    /// Column.
    pub col_id: i64,
}

/// The index has the key.
pub open spec fn keyed(v: Vector, k: IndexKey) -> bool {
    v.table_id == k.table_id && v.index_id == k.index_id && v.col_id == k.col_id
}

/// Some file of the index has the id.
pub open spec fn holds_file(v: Vector, id: u64) -> bool {
    exists|i: int| 0 <= i < v.files.len() && (#[trigger] v.files[i]).id == id
}

/// Some index of the list has the key.
pub open spec fn indexed(s: Seq<Vector>, k: IndexKey) -> bool {
    exists|i: int| 0 <= i < s.len() && keyed(#[trigger] s[i], k)
}

/// Some index of the list has the key, and a file of it the id.
pub open spec fn indexed_file(s: Seq<Vector>, k: IndexKey, id: u64) -> bool {
    exists|i: int| 0 <= i < s.len() && keyed(#[trigger] s[i], k) && holds_file(s[i], id)
}

/// The first index of the list with the key is at least of the version.
pub open spec fn at_version(s: Seq<Vector>, k: IndexKey, version: u64) -> bool {
    exists|i: int|
        0 <= i < s.len() && keyed(#[trigger] s[i], k) && s[i].snap_version >= version && forall|
            j: int,
        |
            0 <= j < i ==> !keyed(#[trigger] s[j], k)
}

proof fn lemma_file_ids(v: Vector, id: u64)
    ensures
        vector_file_ids(v.files).contains(id) == holds_file(v, id),
{
    let ids = vector_file_ids(v.files);
    if ids.contains(id) {
        let i = choose|i: int| 0 <= i < ids.len() && ids[i] == id;
        assert(v.files[i].id == id);
    }
    if holds_file(v, id) {
        let i = choose|i: int| 0 <= i < v.files.len() && (#[trigger] v.files[i]).id == id;
        assert(ids[i] == id);
    }
}

proof fn lemma_merged_pair(a: Vector, b: Vector, id: u64)
    ensures
        holds_file(a.merged(b), id) == (holds_file(a, id) || holds_file(b, id)),
{
    let keep = |f: pb::VectorIndexFile| !vector_file_ids(a.files).contains(f.id);
    let more = b.files.filter(keep);
    let all = a.merged(b);
    assert(all.files == a.files + more);
    if holds_file(all, id) {
        let i = choose|i: int| 0 <= i < all.files.len() && (#[trigger] all.files[i]).id == id;
        if i < a.files.len() {
            assert(a.files[i].id == id);
        } else {
            let f = more[i - a.files.len()];
            assert(more.contains(f));
            lemma_filtered(b.files, keep, f);
            let j = choose|j: int| 0 <= j < b.files.len() && b.files[j] == f;
            assert(b.files[j].id == id);
        }
    }
    if holds_file(a, id) {
        let i = choose|i: int| 0 <= i < a.files.len() && (#[trigger] a.files[i]).id == id;
        assert(all.files[i].id == id);
    } else if holds_file(b, id) {
        let j = choose|j: int| 0 <= j < b.files.len() && (#[trigger] b.files[j]).id == id;
        lemma_file_ids(a, id);
        assert(b.files.contains(b.files[j]));
        lemma_filtered(b.files, keep, b.files[j]);
        let m = choose|m: int| 0 <= m < more.len() && more[m] == b.files[j];
        assert(all.files[a.files.len() + m].id == id);
    }
}

proof fn lemma_front(v: Vector, s: Seq<Vector>, k: IndexKey, id: u64)
    ensures
        indexed(seq![v] + s, k) == (keyed(v, k) || indexed(s, k)),
        indexed_file(seq![v] + s, k, id) == (keyed(v, k) && holds_file(v, id) || indexed_file(
            s,
            k,
            id,
        )),
{
    let all = seq![v] + s;
    assert(all[0] == v);
    assert forall|i: int| 0 <= i < s.len() implies all[i + 1] == #[trigger] s[i] by {}
    if indexed(all, k) {
        let i = choose|i: int| 0 <= i < all.len() && keyed(#[trigger] all[i], k);
        if i > 0 {
            assert(s[i - 1] == all[i]);
        }
    }
    if indexed(s, k) {
        let i = choose|i: int| 0 <= i < s.len() && keyed(#[trigger] s[i], k);
        assert(keyed(all[i + 1], k));
    }
    if indexed_file(all, k, id) {
        let i = choose|i: int|
            0 <= i < all.len() && keyed(#[trigger] all[i], k) && holds_file(all[i], id);
        if i > 0 {
            assert(s[i - 1] == all[i]);
        }
    }
    if indexed_file(s, k, id) {
        let i = choose|i: int|
            0 <= i < s.len() && keyed(#[trigger] s[i], k) && holds_file(s[i], id);
        assert(keyed(all[i + 1], k));
    }
}

proof fn lemma_with(s: Seq<Vector>, v: Vector, k: IndexKey, id: u64)
    ensures
        indexed(vectors_with(s, v), k) == (indexed(s, k) || keyed(v, k)),
        indexed_file(vectors_with(s, v), k, id) == (indexed_file(s, k, id) || keyed(v, k)
            && holds_file(v, id)),
    decreases s.len(),
{
    if s.len() == 0 {
        assert(vectors_with(s, v) =~= seq![v] + s);
        lemma_front(v, s, k, id);
    } else {
        let rest = s.drop_first();
        assert(s =~= seq![s[0]] + rest);
        lemma_front(s[0], rest, k, id);
        if s[0].is_of(v.table_id, v.index_id, v.col_id) {
            lemma_front(s[0].merged(v), rest, k, id);
            lemma_merged_pair(s[0], v, id);
        } else {
            lemma_with(rest, v, k, id);
            lemma_front(s[0], vectors_with(rest, v), k, id);
        }
    }
}

proof fn lemma_raised(s: Seq<Vector>, v: Vector, k: IndexKey, id: u64)
    ensures
        indexed(vectors_raised(s, v), k) == indexed(s, k),
        indexed_file(vectors_raised(s, v), k, id) == indexed_file(s, k, id),
    decreases s.len(),
{
    if s.len() > 0 {
        let rest = s.drop_first();
        assert(s =~= seq![s[0]] + rest);
        lemma_front(s[0], rest, k, id);
        if s[0].is_of(v.table_id, v.index_id, v.col_id) {
            let up = Vector {
                snap_version: if s[0].snap_version >= v.snap_version {
                    s[0].snap_version
                } else {
                    v.snap_version
                },
                ..s[0]
            };
            lemma_front(up, rest, k, id);
            assert(holds_file(up, id) == holds_file(s[0], id)) by {
                assert(up.files == s[0].files);
            }
        } else {
            lemma_raised(rest, v, k, id);
            lemma_front(s[0], vectors_raised(rest, v), k, id);
        }
    }
}

proof fn lemma_back(s: Seq<Vector>, k: IndexKey, id: u64)
    requires
        s.len() > 0,
    ensures
        indexed(s, k) == (indexed(s.drop_last(), k) || keyed(s.last(), k)),
        indexed_file(s, k, id) == (indexed_file(s.drop_last(), k, id) || keyed(s.last(), k)
            && holds_file(s.last(), id)),
{
    let init = s.drop_last();
    let n = s.len() - 1;
    assert(s[n] == s.last());
    assert forall|i: int| 0 <= i < init.len() implies s[i] == #[trigger] init[i] by {}
    if indexed(s, k) {
        let i = choose|i: int| 0 <= i < s.len() && keyed(#[trigger] s[i], k);
        if i < n {
            assert(init[i] == s[i]);
        }
    }
    if indexed(init, k) {
        let i = choose|i: int| 0 <= i < init.len() && keyed(#[trigger] init[i], k);
        assert(keyed(s[i], k));
    }
    if indexed_file(s, k, id) {
        let i = choose|i: int|
            0 <= i < s.len() && keyed(#[trigger] s[i], k) && holds_file(s[i], id);
        if i < n {
            assert(init[i] == s[i]);
        }
    }
    if indexed_file(init, k, id) {
        let i = choose|i: int|
            0 <= i < init.len() && keyed(#[trigger] init[i], k) && holds_file(init[i], id);
        assert(keyed(s[i], k));
    }
}

/// Merged indexes are those of both lists, and each has the files that it has in either, and
/// no others.
pub proof fn law_merged_indexes_have_the_files_of_both(
    s: Seq<Vector>,
    other: Seq<Vector>,
    k: IndexKey,
    id: u64,
)
    ensures
        indexed(vectors_merged(s, other), k) <==> indexed(s, k) || indexed(other, k),
        indexed_file(vectors_merged(s, other), k, id) <==> indexed_file(s, k, id) || indexed_file(
            other,
            k,
            id,
        ),
        indexed(vectors_joined(s, other), k) <==> indexed(s, k) || indexed(other, k),
        indexed_file(vectors_joined(s, other), k, id) <==> indexed_file(s, k, id) || indexed_file(
            other,
            k,
            id,
        ),
    decreases other.len(),
{
    if other.len() > 0 {
        let init = other.drop_last();
        law_merged_indexes_have_the_files_of_both(s, init, k, id);
        lemma_back(other, k, id);
        lemma_with(vectors_merged(s, init), other.last(), k, id);
        lemma_with(vectors_joined(s, init), other.last(), k, id);
        lemma_raised(vectors_with(vectors_joined(s, init), other.last()), other.last(), k, id);
    }
}

proof fn lemma_front_version(v: Vector, s: Seq<Vector>, k: IndexKey, version: u64)
    ensures
        at_version(seq![v] + s, k, version) == if keyed(v, k) {
            v.snap_version >= version
        } else {
            at_version(s, k, version)
        },
{
    let all = seq![v] + s;
    assert(all[0] == v);
    assert forall|i: int| 0 <= i < s.len() implies all[i + 1] == #[trigger] s[i] by {}
    if at_version(all, k, version) {
        let i = choose|i: int|
            0 <= i < all.len() && keyed(#[trigger] all[i], k) && all[i].snap_version >= version
                && forall|j: int| 0 <= j < i ==> !keyed(#[trigger] all[j], k);
        if i > 0 {
            assert(!keyed(all[0], k));
            assert(s[i - 1] == all[i]);
            assert forall|j: int| 0 <= j < i - 1 implies !keyed(#[trigger] s[j], k) by {
                assert(all[j + 1] == s[j]);
            }
        }
    }
    if keyed(v, k) {
        if v.snap_version >= version {
            assert(keyed(all[0], k));
        }
    } else if at_version(s, k, version) {
        let i = choose|i: int|
            0 <= i < s.len() && keyed(#[trigger] s[i], k) && s[i].snap_version >= version
                && forall|j: int| 0 <= j < i ==> !keyed(#[trigger] s[j], k);
        assert(keyed(all[i + 1], k));
        assert forall|j: int| 0 <= j < i + 1 implies !keyed(#[trigger] all[j], k) by {
            if j > 0 {
                assert(s[j - 1] == all[j]);
            }
        }
    }
}

proof fn lemma_with_version(s: Seq<Vector>, v: Vector, k: IndexKey, version: u64)
    ensures
        at_version(s, k, version) ==> at_version(vectors_with(s, v), k, version),
        keyed(v, k) ==> indexed(vectors_with(s, v), k),
    decreases s.len(),
{
    lemma_with(s, v, k, 0);
    if s.len() > 0 {
        let rest = s.drop_first();
        assert(s =~= seq![s[0]] + rest);
        lemma_front_version(s[0], rest, k, version);
        if s[0].is_of(v.table_id, v.index_id, v.col_id) {
            lemma_front_version(s[0].merged(v), rest, k, version);
        } else {
            lemma_with_version(rest, v, k, version);
            lemma_front_version(s[0], vectors_with(rest, v), k, version);
        }
    }
}

proof fn lemma_raised_version(s: Seq<Vector>, v: Vector, k: IndexKey, version: u64)
    ensures
        at_version(s, k, version) ==> at_version(vectors_raised(s, v), k, version),
        indexed(s, k) && keyed(v, k) ==> at_version(vectors_raised(s, v), k, v.snap_version),
    decreases s.len(),
{
    if s.len() > 0 {
        let rest = s.drop_first();
        assert(s =~= seq![s[0]] + rest);
        lemma_front(s[0], rest, k, 0);
        lemma_front_version(s[0], rest, k, version);
        if s[0].is_of(v.table_id, v.index_id, v.col_id) {
            let up = Vector {
                snap_version: if s[0].snap_version >= v.snap_version {
                    s[0].snap_version
                } else {
                    v.snap_version
                },
                ..s[0]
            };
            lemma_front_version(up, rest, k, version);
            lemma_front_version(up, rest, k, v.snap_version);
        } else {
            lemma_raised_version(rest, v, k, version);
            lemma_front_version(s[0], vectors_raised(rest, v), k, version);
            lemma_front_version(s[0], vectors_raised(rest, v), k, v.snap_version);
        }
    }
}

/// An index of a merged shard covers at least the version that either of the two covered.
pub proof fn law_joined_index_has_the_higher_version(
    s: Seq<Vector>,
    other: Seq<Vector>,
    k: IndexKey,
    version: u64,
    i: int,
)
    ensures
        at_version(s, k, version) ==> at_version(vectors_joined(s, other), k, version),
        0 <= i < other.len() && keyed(other[i], k) ==> at_version(
            vectors_joined(s, other),
            k,
            other[i].snap_version,
        ),
    decreases other.len(),
{
    if other.len() > 0 {
        let init = other.drop_last();
        let v = other.last();
        let before = vectors_joined(s, init);
        let now = vectors_with(before, v);
        law_joined_index_has_the_higher_version(s, init, k, version, i);
        lemma_with_version(before, v, k, version);
        lemma_raised_version(now, v, k, version);
        if 0 <= i < other.len() && keyed(other[i], k) {
            lemma_with_version(before, v, k, other[i].snap_version);
            lemma_raised_version(now, v, k, other[i].snap_version);
            if i < init.len() {
                assert(init[i] == other[i]);
            } else {
                assert(other[i] == v);
            }
        }
    }
}

/// The indexes of some tables are those whose table is listed, and they stay as they are.
pub proof fn law_indexes_of_tables(s: Seq<Vector>, ids: Seq<i64>, v: Vector)
    ensures
        vectors_of_tables(s, ids).contains(v) <==> s.contains(v) && ids.contains(v.table_id),
{
    lemma_filtered(s, |v: Vector| ids.contains(v.table_id), v);
}

/// A file that has a key of the range from `lower` to before `upper`.
pub open spec fn file_reaches(f: pb::VectorIndexFile, lower: Seq<u8>, upper: Seq<u8>) -> bool {
    lex_lt(content(f.smallest), upper) && lex_le(lower, content(f.biggest))
}

/// A part of a shard has the indexes of its tables with the files that reach into its range,
/// and no index that has none.
pub proof fn law_part_has_indexes_of_its_tables(
    s: Seq<Vector>,
    ids: Seq<i64>,
    lower: Seq<u8>,
    upper: Seq<u8>,
    k: IndexKey,
    f: pb::VectorIndexFile,
)
    ensures
        ({
            let b = Bound { lower, upper, inclusive: false };
            let res = vectors_within(s, ids, b);
            &&& (exists|i: int|
                0 <= i < res.len() && keyed(#[trigger] res[i], k) && res[i].files.contains(f))
                <==> ids.contains(k.table_id) && file_reaches(f, lower, upper) && exists|i: int|
                0 <= i < s.len() && keyed(#[trigger] s[i], k) && s[i].files.contains(f)
            &&& forall|i: int| 0 <= i < res.len() ==> (#[trigger] res[i]).files.len() > 0
            &&& forall|i: int|
                0 <= i < res.len() ==> exists|j: int|
                    0 <= j < s.len() && (#[trigger] res[i]).snap_version == (
                    #[trigger] s[j]).snap_version && res[i].table_id == s[j].table_id
                        && res[i].index_id == s[j].index_id && res[i].col_id == s[j].col_id
        }),
    decreases s.len(),
{
    let b = Bound { lower, upper, inclusive: false };
    if s.len() > 0 {
        let init = s.drop_last();
        law_part_has_indexes_of_its_tables(init, ids, lower, upper, k, f);
        let rest = vectors_within(init, ids, b);
        let res = vectors_within(s, ids, b);
        let n = s.len() - 1;
        let last = s.last().within(b);
        assert(s[n] == s.last());
        lemma_filtered(s.last().files, |f: pb::VectorIndexFile| b.overlaps(f.bound()), f);
        assert(b.overlaps(f.bound()) == file_reaches(f, lower, upper));
        assert forall|i: int| 0 <= i < init.len() implies s[i] == #[trigger] init[i] by {}
        let kept = ids.contains(last.table_id) && last.files.len() > 0;
        assert forall|i: int| 0 <= i < rest.len() implies res[i] == #[trigger] rest[i] by {}
        if kept {
            assert(res[rest.len() as int] == last);
        }
        if exists|i: int|
            0 <= i < res.len() && keyed(#[trigger] res[i], k) && res[i].files.contains(f) {
            let i = choose|i: int|
                0 <= i < res.len() && keyed(#[trigger] res[i], k) && res[i].files.contains(f);
            if i < rest.len() {
                assert(rest[i] == res[i]);
                let j = choose|j: int|
                    0 <= j < init.len() && keyed(#[trigger] init[j], k) && init[j].files.contains(f);
                assert(s[j] == init[j]);
            } else {
                assert(keyed(s[n], k));
            }
        }
        if ids.contains(k.table_id) && file_reaches(f, lower, upper) && exists|i: int|
            0 <= i < s.len() && keyed(#[trigger] s[i], k) && s[i].files.contains(f) {
            let i = choose|i: int|
                0 <= i < s.len() && keyed(#[trigger] s[i], k) && s[i].files.contains(f);
            if i < n {
                assert(init[i] == s[i]);
                let j = choose|j: int|
                    0 <= j < rest.len() && keyed(#[trigger] rest[j], k) && rest[j].files.contains(f);
                assert(res[j] == rest[j]);
            } else {
                assert(last.files.contains(f));
                assert(last.files.len() > 0);
                assert(keyed(res[rest.len() as int], k));
            }
        }
        assert forall|i: int| 0 <= i < res.len() implies exists|j: int|
            0 <= j < s.len() && (#[trigger] res[i]).snap_version == (
            #[trigger] s[j]).snap_version && res[i].table_id == s[j].table_id && res[i].index_id
                == s[j].index_id && res[i].col_id == s[j].col_id by {
            if i < rest.len() {
                assert(rest[i] == res[i]);
                let j = choose|j: int|
                    0 <= j < init.len() && (#[trigger] rest[i]).snap_version == (
                    #[trigger] init[j]).snap_version && rest[i].table_id == init[j].table_id
                        && rest[i].index_id == init[j].index_id && rest[i].col_id == init[j].col_id;
                assert(s[j] == init[j]);
            } else {
                assert(s[n].snap_version == last.snap_version);
            }
        }
    }
}

} // verus!
