//! What changes of a shard do to its files and properties, told by their messages.
use vstd::prelude::*;

use crate::buf::content;
use crate::del_prefixes::{
    decoded, law_marshal_roundtrip, lemma_decoded_short, lemma_merge_one_short, merge_one,
};
use crate::file_meta::{FileMeta, FileType, SnapVersion};
use crate::files::{
    blob_entries_of, columnar_entries_of, deleted_at, dels_at, dels_of, l0_entries_of,
    table_entries_of, vector_entries_of, with_files, with_vectors, without_files,
};
use crate::lists::{any_between, law_sort_dedup, lemma_filtered, lemma_joined, sort_dedup};
use crate::meta::apply::{
    can_move, can_move_all, del_ids, deletions, files_changed, files_moved, flush_l0s, l0_ids,
    with_successors,
};
use crate::meta::{index_pairs, snap_files, Meta};
use crate::pb;
use crate::properties::{
    props_valid, set_all, set_first, DEL_PREFIXES_KEY, MANUAL_MAJOR_COMPACTION, STORAGE_CLASS_KEY,
    TRIM_OVER_BOUND,
};
use crate::vectors::{vectors_updated, Vector};

verus! {

/// The list names the file.
pub open spec fn names(s: Seq<(u64, FileMeta)>, id: u64) -> bool {
    exists|i: int| 0 <= i < s.len() && (#[trigger] s[i]).0 == id
}

/// Both have the same file under the id, or none.
pub open spec fn same_at(a: Map<u64, FileMeta>, b: Map<u64, FileMeta>, id: u64) -> bool {
    &&& a.contains_key(id) == b.contains_key(id)
    &&& a.contains_key(id) ==> a[id] == b[id]
}

/// The meta of a table of level 0: it holds all column families.
pub open spec fn is_l0_file(fm: FileMeta, t: pb::L0Create) -> bool {
    &&& fm.file_type is Sst
    &&& fm.cf == -1
    &&& fm.level == 0
    &&& fm.smallest == t.smallest
    &&& fm.biggest == t.biggest
    &&& fm.l0_size == t.size
    &&& fm.table_ids == t.table_ids
}

/// The meta of a table of a lower level.
pub open spec fn is_table_file(fm: FileMeta, t: pb::TableCreate) -> bool {
    &&& fm.file_type is Sst
    &&& fm.cf == t.cf as i8
    &&& fm.level == t.level as u8
    &&& fm.smallest == t.smallest
    &&& fm.biggest == t.biggest
    &&& fm.l0_size == 0
    &&& fm.table_meta_off == t.meta_offset
    &&& fm.table_ids == t.table_ids
}

/// The meta of a blob table.
pub open spec fn is_blob_file(fm: FileMeta, t: pb::BlobCreate) -> bool {
    &&& fm.file_type is Blob
    &&& fm.cf == -1
    &&& fm.level == 0
    &&& fm.smallest == t.smallest
    &&& fm.biggest == t.biggest
    &&& fm.table_meta_off == t.meta_offset
    &&& fm.table_ids == t.table_ids
}

/// The meta of a columnar file.
pub open spec fn is_columnar_file(fm: FileMeta, t: pb::ColumnarCreate) -> bool {
    &&& fm.file_type is Columnar
    &&& fm.level == t.level as u8
    &&& fm.smallest == t.smallest
    &&& fm.biggest == t.biggest
    &&& fm.table_meta_off == t.meta_offset
    &&& fm.snap_version == Some(SnapVersion { version: t.snap_version })
    &&& fm.table_ids == t.table_ids
}

/// The meta of a file of a vector index.
pub open spec fn is_vector_file(fm: FileMeta, t: pb::VectorIndexFile) -> bool {
    &&& fm.file_type is VectorIndex
    &&& fm.smallest == t.smallest
    &&& fm.biggest == t.biggest
    &&& fm.table_meta_off == t.meta_offset
    &&& fm.table_ids == t.table_ids
}

proof fn lemma_with_files(m: Map<u64, FileMeta>, s: Seq<(u64, FileMeta)>, id: u64)
    ensures
        !names(s, id) ==> same_at(m, with_files(m, s), id),
        names(s, id) ==> with_files(m, s).contains_key(id) && exists|i: int|
            0 <= i < s.len() && (#[trigger] s[i]).0 == id && with_files(m, s)[id] == s[i].1,
        forall|i: int|
            0 <= i < s.len() && (#[trigger] s[i]).0 == id && (forall|j: int|
                i < j < s.len() ==> (#[trigger] s[j]).0 != id) ==> with_files(m, s)[id] == s[i].1,
    decreases s.len(),
{
    if s.len() > 0 {
        let init = s.drop_last();
        let n = s.len() - 1;
        lemma_with_files(m, init, id);
        assert(s[n] == s.last());
        if s.last().0 != id {
            if names(s, id) {
                let i = choose|i: int| 0 <= i < s.len() && (#[trigger] s[i]).0 == id;
                assert(init[i].0 == id);
                let k = choose|i: int|
                    0 <= i < init.len() && (#[trigger] init[i]).0 == id && with_files(m, init)[id]
                        == init[i].1;
                assert(s[k].0 == id);
            }
            if names(init, id) {
                let i = choose|i: int| 0 <= i < init.len() && (#[trigger] init[i]).0 == id;
                assert(s[i].0 == id);
            }
            assert forall|i: int|
                0 <= i < s.len() && (#[trigger] s[i]).0 == id && (forall|j: int|
                    i < j < s.len() ==> (#[trigger] s[j]).0 != id) implies with_files(m, s)[id]
                == s[i].1 by {
                assert(init[i].0 == id);
                assert forall|j: int| i < j < init.len() implies (#[trigger] init[j]).0 != id by {
                    assert(s[j].0 != id);
                }
            }
        }
    }
}

/// The list names the file as a table of level 0.
pub open spec fn names_l0(s: Seq<pb::L0Create>, id: u64) -> bool {
    exists|i: int| 0 <= i < s.len() && (#[trigger] s[i]).id == id
}

/// Nothing behind it in the list has its id.
pub open spec fn last_l0(s: Seq<pb::L0Create>, i: int) -> bool {
    &&& 0 <= i < s.len()
    &&& forall|j: int| i < j < s.len() ==> (#[trigger] s[j]).id != s[i].id
}

proof fn lemma_l0s_added(m: Map<u64, FileMeta>, s: Seq<pb::L0Create>, id: u64)
    ensures
        ({
            let a = with_files(m, l0_entries_of(s));
            &&& !names_l0(s, id) ==> same_at(m, a, id)
            &&& names_l0(s, id) ==> a.contains_key(id) && exists|i: int|
                0 <= i < s.len() && (#[trigger] s[i]).id == id && is_l0_file(a[id], s[i])
            &&& forall|i: int|
                #[trigger] last_l0(s, i) && s[i].id == id ==> a.contains_key(id) && is_l0_file(
                    a[id],
                    s[i],
                )
        }),
{
    let e = l0_entries_of(s);
    lemma_with_files(m, e, id);
    let a = with_files(m, e);
    if names(e, id) {
        let i = choose|i: int| 0 <= i < e.len() && (#[trigger] e[i]).0 == id && a[id] == e[i].1;
        assert(s[i].id == id);
        assert(is_l0_file(a[id], s[i]));
    }
    if names_l0(s, id) {
        let i = choose|i: int| 0 <= i < s.len() && (#[trigger] s[i]).id == id;
        assert(e[i].0 == id);
    }
    assert forall|i: int| #[trigger] last_l0(s, i) && s[i].id == id implies a.contains_key(id)
        && is_l0_file(a[id], s[i]) by {
        assert(e[i].0 == id);
        assert forall|j: int| i < j < e.len() implies (#[trigger] e[j]).0 != id by {
            assert(s[j].id != s[i].id);
        }
    }
}

/// The list names the file as a table.
pub open spec fn names_table(s: Seq<pb::TableCreate>, id: u64) -> bool {
    exists|i: int| 0 <= i < s.len() && (#[trigger] s[i]).id == id
}

/// Nothing behind it in the list has its id.
pub open spec fn last_table(s: Seq<pb::TableCreate>, i: int) -> bool {
    &&& 0 <= i < s.len()
    &&& forall|j: int| i < j < s.len() ==> (#[trigger] s[j]).id != s[i].id
}

proof fn lemma_tables_added(m: Map<u64, FileMeta>, s: Seq<pb::TableCreate>, id: u64)
    ensures
        ({
            let a = with_files(m, table_entries_of(s));
            &&& !names_table(s, id) ==> same_at(m, a, id)
            &&& names_table(s, id) ==> a.contains_key(id) && exists|i: int|
                0 <= i < s.len() && (#[trigger] s[i]).id == id && is_table_file(a[id], s[i])
            &&& forall|i: int|
                #[trigger] last_table(s, i) && s[i].id == id ==> a.contains_key(id) && is_table_file(
                    a[id],
                    s[i],
                )
        }),
{
    let e = table_entries_of(s);
    lemma_with_files(m, e, id);
    let a = with_files(m, e);
    if names(e, id) {
        let i = choose|i: int| 0 <= i < e.len() && (#[trigger] e[i]).0 == id && a[id] == e[i].1;
        assert(s[i].id == id);
        assert(is_table_file(a[id], s[i]));
    }
    if names_table(s, id) {
        let i = choose|i: int| 0 <= i < s.len() && (#[trigger] s[i]).id == id;
        assert(e[i].0 == id);
    }
    assert forall|i: int| #[trigger] last_table(s, i) && s[i].id == id implies a.contains_key(id)
        && is_table_file(a[id], s[i]) by {
        assert(e[i].0 == id);
        assert forall|j: int| i < j < e.len() implies (#[trigger] e[j]).0 != id by {
            assert(s[j].id != s[i].id);
        }
    }
}

/// The list names the file as a blob table.
pub open spec fn names_blob(s: Seq<pb::BlobCreate>, id: u64) -> bool {
    exists|i: int| 0 <= i < s.len() && (#[trigger] s[i]).id == id
}

/// Nothing behind it in the list has its id.
pub open spec fn last_blob(s: Seq<pb::BlobCreate>, i: int) -> bool {
    &&& 0 <= i < s.len()
    &&& forall|j: int| i < j < s.len() ==> (#[trigger] s[j]).id != s[i].id
}

proof fn lemma_blobs_added(m: Map<u64, FileMeta>, s: Seq<pb::BlobCreate>, id: u64)
    ensures
        ({
            let a = with_files(m, blob_entries_of(s));
            &&& !names_blob(s, id) ==> same_at(m, a, id)
            &&& names_blob(s, id) ==> a.contains_key(id) && exists|i: int|
                0 <= i < s.len() && (#[trigger] s[i]).id == id && is_blob_file(a[id], s[i])
            &&& forall|i: int|
                #[trigger] last_blob(s, i) && s[i].id == id ==> a.contains_key(id) && is_blob_file(
                    a[id],
                    s[i],
                )
        }),
{
    let e = blob_entries_of(s);
    lemma_with_files(m, e, id);
    let a = with_files(m, e);
    if names(e, id) {
        let i = choose|i: int| 0 <= i < e.len() && (#[trigger] e[i]).0 == id && a[id] == e[i].1;
        assert(s[i].id == id);
        assert(is_blob_file(a[id], s[i]));
    }
    if names_blob(s, id) {
        let i = choose|i: int| 0 <= i < s.len() && (#[trigger] s[i]).id == id;
        assert(e[i].0 == id);
    }
    assert forall|i: int| #[trigger] last_blob(s, i) && s[i].id == id implies a.contains_key(id)
        && is_blob_file(a[id], s[i]) by {
        assert(e[i].0 == id);
        assert forall|j: int| i < j < e.len() implies (#[trigger] e[j]).0 != id by {
            assert(s[j].id != s[i].id);
        }
    }
}

/// The list names the file as a columnar file.
pub open spec fn names_columnar(s: Seq<pb::ColumnarCreate>, id: u64) -> bool {
    exists|i: int| 0 <= i < s.len() && (#[trigger] s[i]).id == id
}

/// Nothing behind it in the list has its id.
pub open spec fn last_columnar(s: Seq<pb::ColumnarCreate>, i: int) -> bool {
    &&& 0 <= i < s.len()
    &&& forall|j: int| i < j < s.len() ==> (#[trigger] s[j]).id != s[i].id
}

proof fn lemma_columnars_added(m: Map<u64, FileMeta>, s: Seq<pb::ColumnarCreate>, id: u64)
    ensures
        ({
            let a = with_files(m, columnar_entries_of(s));
            &&& !names_columnar(s, id) ==> same_at(m, a, id)
            &&& names_columnar(s, id) ==> a.contains_key(id) && exists|i: int|
                0 <= i < s.len() && (#[trigger] s[i]).id == id && is_columnar_file(a[id], s[i])
            &&& forall|i: int|
                #[trigger] last_columnar(s, i) && s[i].id == id ==> a.contains_key(id) && is_columnar_file(
                    a[id],
                    s[i],
                )
        }),
{
    let e = columnar_entries_of(s);
    lemma_with_files(m, e, id);
    let a = with_files(m, e);
    if names(e, id) {
        let i = choose|i: int| 0 <= i < e.len() && (#[trigger] e[i]).0 == id && a[id] == e[i].1;
        assert(s[i].id == id);
        assert(is_columnar_file(a[id], s[i]));
    }
    if names_columnar(s, id) {
        let i = choose|i: int| 0 <= i < s.len() && (#[trigger] s[i]).id == id;
        assert(e[i].0 == id);
    }
    assert forall|i: int| #[trigger] last_columnar(s, i) && s[i].id == id implies a.contains_key(id)
        && is_columnar_file(a[id], s[i]) by {
        assert(e[i].0 == id);
        assert forall|j: int| i < j < e.len() implies (#[trigger] e[j]).0 != id by {
            assert(s[j].id != s[i].id);
        }
    }
}

/// The list names the file as a file of a vector index.
pub open spec fn names_vector(s: Seq<pb::VectorIndexFile>, id: u64) -> bool {
    exists|i: int| 0 <= i < s.len() && (#[trigger] s[i]).id == id
}

/// Nothing behind it in the list has its id.
pub open spec fn last_vector(s: Seq<pb::VectorIndexFile>, i: int) -> bool {
    &&& 0 <= i < s.len()
    &&& forall|j: int| i < j < s.len() ==> (#[trigger] s[j]).id != s[i].id
}

proof fn lemma_vectors_added(m: Map<u64, FileMeta>, s: Seq<pb::VectorIndexFile>, id: u64)
    ensures
        ({
            let a = with_files(m, vector_entries_of(s));
            &&& !names_vector(s, id) ==> same_at(m, a, id)
            &&& names_vector(s, id) ==> a.contains_key(id) && exists|i: int|
                0 <= i < s.len() && (#[trigger] s[i]).id == id && is_vector_file(a[id], s[i])
            &&& forall|i: int|
                #[trigger] last_vector(s, i) && s[i].id == id ==> a.contains_key(id) && is_vector_file(
                    a[id],
                    s[i],
                )
        }),
{
    let e = vector_entries_of(s);
    lemma_with_files(m, e, id);
    let a = with_files(m, e);
    if names(e, id) {
        let i = choose|i: int| 0 <= i < e.len() && (#[trigger] e[i]).0 == id && a[id] == e[i].1;
        assert(s[i].id == id);
        assert(is_vector_file(a[id], s[i]));
    }
    if names_vector(s, id) {
        let i = choose|i: int| 0 <= i < s.len() && (#[trigger] s[i]).id == id;
        assert(e[i].0 == id);
    }
    assert forall|i: int| #[trigger] last_vector(s, i) && s[i].id == id implies a.contains_key(id)
        && is_vector_file(a[id], s[i]) by {
        assert(e[i].0 == id);
        assert forall|j: int| i < j < e.len() implies (#[trigger] e[j]).0 != id by {
            assert(s[j].id != s[i].id);
        }
    }
}

/// The message deletes the file, which is of the kind and at the level that is named.
pub open spec fn deletes(s: Seq<pb::TableDelete>, fm: FileMeta, ft: FileType, id: u64) -> bool {
    fm.file_type == ft && exists|i: int|
        0 <= i < s.len() && (#[trigger] s[i]).id == id && s[i].level == fm.level as int
}

proof fn lemma_deleted(m: Map<u64, FileMeta>, s: Seq<pb::TableDelete>, ft: FileType, id: u64)
    ensures
        ({
            let a = without_files(m, dels_of(s), ft);
            &&& m.contains_key(id) && deletes(s, m[id], ft, id) ==> !a.contains_key(id)
            &&& !(m.contains_key(id) && deletes(s, m[id], ft, id)) ==> same_at(m, a, id)
        }),
{
    let d = dels_of(s);
    if m.contains_key(id) {
        let level = m[id].level as u32;
        if deletes(s, m[id], ft, id) {
            let i = choose|i: int|
                0 <= i < s.len() && (#[trigger] s[i]).id == id && s[i].level == m[id].level as int;
            assert(d[i] == (id, level));
        }
        if m[id].file_type == ft && deleted_at(d, id, level) {
            let i = choose|i: int| 0 <= i < d.len() && d[i] == (id, level);
            assert(s[i].id == id);
        }
    }
}

proof fn lemma_deleted_at(m: Map<u64, FileMeta>, s: Seq<u64>, level: u32, ft: FileType, id: u64)
    ensures
        ({
            let a = without_files(m, dels_at(s, level), ft);
            let gone = m.contains_key(id) && s.contains(id) && m[id].file_type == ft
                && m[id].level == level;
            &&& gone ==> !a.contains_key(id)
            &&& !gone ==> same_at(m, a, id)
        }),
{
    let d = dels_at(s, level);
    if m.contains_key(id) {
        if s.contains(id) {
            let i = choose|i: int| 0 <= i < s.len() && s[i] == id;
            assert(d[i] == (id, level));
        }
        if d.contains((id, m[id].level as u32)) {
            let i = choose|i: int| 0 <= i < d.len() && d[i] == (id, m[id].level as u32);
            assert(s[i] == id);
        }
    }
}

/// Each property of a message has its value afterwards; of two with one key the later counts.
/// All others stay.
pub proof fn law_properties_of_a_message_are_set(
    m: Map<Seq<char>, Seq<u8>>,
    props: pb::Properties,
    key: Seq<char>,
)
    requires
        props_valid(props),
    ensures
        forall|i: int|
            0 <= i < props.keys@.len() && (#[trigger] props.keys@[i])@ == key && (forall|j: int|
                i < j < props.keys@.len() ==> (#[trigger] props.keys@[j])@ != key) ==> set_all(
                m,
                props,
            ).contains_key(key) && set_all(m, props)[key] == content(props.values@[i]),
        (forall|i: int| 0 <= i < props.keys@.len() ==> (#[trigger] props.keys@[i])@ != key) ==> {
            &&& set_all(m, props).contains_key(key) == m.contains_key(key)
            &&& m.contains_key(key) ==> set_all(m, props)[key] == m[key]
        },
{
    lemma_set_first(m, props, key, props.keys@.len());
}

proof fn lemma_set_first(
    m: Map<Seq<char>, Seq<u8>>,
    props: pb::Properties,
    key: Seq<char>,
    n: nat,
)
    requires
        n <= props.keys@.len(),
    ensures
        ({
            let a = set_first(m, props.keys@, props.values@, n);
            &&& forall|i: int|
                0 <= i < n && (#[trigger] props.keys@[i])@ == key && (forall|j: int|
                    i < j < n ==> (#[trigger] props.keys@[j])@ != key) ==> a.contains_key(key)
                    && a[key] == content(props.values@[i])
            &&& (forall|i: int| 0 <= i < n ==> (#[trigger] props.keys@[i])@ != key) ==> {
                &&& a.contains_key(key) == m.contains_key(key)
                &&& m.contains_key(key) ==> a[key] == m[key]
            }
        }),
    decreases n,
{
    if n > 0 {
        lemma_set_first(m, props, key, (n - 1) as nat);
        let last = props.keys@[n - 1];
        assert(last@ == key || last@ != key);
    }
}

/// A flush: each of its tables is a file of the shard, and all other files stay. Where the
/// shard keeps columns the tables wait to be converted. The sequence and the highest timestamp
/// of the data do not fall, and reach those of the flush.
pub proof fn law_flush_adds_its_tables(m: Meta, cs: pb::ChangeSet, f: pb::Flush, id: u64)
    requires
        cs.initial_flush is None,
        cs.flush == Some(f),
        m.can_apply(cs),
    ensures
        ({
            let after = m.applied(cs);
            let single = f.l0_create matches Some(t) && t.id == id;
            &&& forall|i: int|
                #[trigger] last_l0(f.l0_creates@, i) && f.l0_creates@[i].id == id
                    ==> after.files.contains_key(id) && is_l0_file(
                    after.files[id],
                    f.l0_creates@[i],
                )
            &&& single && !names_l0(f.l0_creates@, id) ==> after.files.contains_key(id)
                && is_l0_file(after.files[id], f.l0_create->0)
            &&& !single && !names_l0(f.l0_creates@, id) ==> same_at(m.files, after.files, id)
            &&& after.unconverted_l0s.contains(id) == (m.unconverted_l0s.contains(id) || ((single
                || names_l0(f.l0_creates@, id)) && m.schema.schema_file_id != 0
                && m.columnar_table_ids.len() > 0))
            &&& after.data_sequence >= m.data_sequence
            &&& after.base_version + after.data_sequence >= f.version
            &&& after.data_sequence == m.data_sequence || after.base_version + after.data_sequence
                == f.version
            &&& after.max_ts >= m.max_ts && after.max_ts >= f.max_ts
            &&& after.max_ts == m.max_ts || after.max_ts == f.max_ts
            &&& after.props == set_all(m.props, f.properties)
            &&& after == (Meta {
                seq: cs.sequence,
                files: after.files,
                unconverted_l0s: after.unconverted_l0s,
                data_sequence: after.data_sequence,
                max_ts: after.max_ts,
                props: after.props,
                ..m
            })
        }),
{
    let l0s = flush_l0s(f);
    let after = m.applied(cs);
    lemma_l0s_added(m.files, l0s, id);
    let single = f.l0_create matches Some(t) && t.id == id;
    let shift: int = if f.l0_create is Some {
        1
    } else {
        0
    };
    assert(forall|i: int| 0 <= i < f.l0_creates@.len() ==> #[trigger] f.l0_creates@[i] == l0s[i
        + shift]);
    assert forall|i: int| #[trigger] last_l0(f.l0_creates@, i) && f.l0_creates@[i].id == id implies
        after.files.contains_key(id) && is_l0_file(after.files[id], f.l0_creates@[i]) by {
        let k = i + shift;
        assert forall|j: int| k < j < l0s.len() implies (#[trigger] l0s[j]).id != l0s[k].id by {
            assert(f.l0_creates@[j - shift].id != f.l0_creates@[i].id);
        }
        assert(last_l0(l0s, k));
    }
    if single && !names_l0(f.l0_creates@, id) {
        assert forall|j: int| 0 < j < l0s.len() implies (#[trigger] l0s[j]).id != l0s[0].id by {
            assert(f.l0_creates@[j - 1].id != id);
        }
        assert(last_l0(l0s, 0));
    }
    assert(names_l0(l0s, id) == (single || names_l0(f.l0_creates@, id))) by {
        if names_l0(l0s, id) {
            let i = choose|i: int| 0 <= i < l0s.len() && (#[trigger] l0s[i]).id == id;
            if i >= shift {
                assert(f.l0_creates@[i - shift].id == id);
            }
        }
        if names_l0(f.l0_creates@, id) {
            let i = choose|i: int|
                0 <= i < f.l0_creates@.len() && (#[trigger] f.l0_creates@[i]).id == id;
            assert(l0s[i + shift].id == id);
        }
        if single {
            assert(l0s[0].id == id);
        }
    }
    assert(l0_ids(l0s).to_set().contains(id) == names_l0(l0s, id)) by {
        if names_l0(l0s, id) {
            let i = choose|i: int| 0 <= i < l0s.len() && (#[trigger] l0s[i]).id == id;
            assert(l0_ids(l0s)[i] == id);
        }
        if l0_ids(l0s).contains(id) {
            let i = choose|i: int| 0 <= i < l0s.len() && l0_ids(l0s)[i] == id;
            assert(l0s[i].id == id);
        }
    }
}

/// The compaction names a first new table that it also deletes, and as many of both: it moves
/// tables to the next level and makes none.
pub open spec fn only_moves(c: pb::Compaction) -> bool {
    &&& 0 < c.top_deletes@.len() == c.table_creates@.len()
    &&& c.top_deletes@[0] == c.table_creates@[0].id
}

/// A compaction of two levels: each new table and each new blob table is a file of the shard.
/// A table that it deletes, and does not make, is none if it was at the level that it is
/// deleted from. All other files stay.
pub proof fn law_compaction_replaces_tables(m: Meta, cs: pb::ChangeSet, c: pb::Compaction, id: u64)
    requires
        cs.initial_flush is None,
        cs.flush is None,
        cs.compaction == Some(c),
        m.can_apply(cs),
        !only_moves(c),
    ensures
        ({
            let after = m.applied(cs);
            let gone = m.files.contains_key(id) && m.files[id].file_type is Sst && ((
            c.top_deletes@.contains(id) && m.files[id].level == c.level) || (
            c.bottom_deletes@.contains(id) && m.files[id].level == c.level + 1));
            &&& forall|i: int|
                #[trigger] last_table(c.table_creates@, i) && c.table_creates@[i].id == id
                    && !names_blob(c.blob_tables@, id) ==> after.files.contains_key(id)
                    && is_table_file(after.files[id], c.table_creates@[i])
            &&& forall|i: int|
                #[trigger] last_blob(c.blob_tables@, i) && c.blob_tables@[i].id == id
                    ==> after.files.contains_key(id) && is_blob_file(
                    after.files[id],
                    c.blob_tables@[i],
                )
            &&& !names_table(c.table_creates@, id) && !names_blob(c.blob_tables@, id) ==> if gone {
                !after.files.contains_key(id)
            } else {
                same_at(m.files, after.files, id)
            }
            &&& after == (Meta { seq: cs.sequence, files: after.files, ..m })
        }),
{
    let top = without_files(m.files, dels_at(c.top_deletes@, c.level), FileType::Sst);
    lemma_deleted_at(m.files, c.top_deletes@, c.level, FileType::Sst, id);
    let below = (c.level + 1) as u32;
    let left = without_files(top, dels_at(c.bottom_deletes@, below), FileType::Sst);
    lemma_deleted_at(top, c.bottom_deletes@, below, FileType::Sst, id);
    lemma_tables_added(left, c.table_creates@, id);
    lemma_blobs_added(with_files(left, table_entries_of(c.table_creates@)), c.blob_tables@, id);
}

/// A compaction that only moves tables to the next level: each of them has its new place and
/// is otherwise the file that it was, and all other files stay.
pub proof fn law_compaction_moves_tables(m: Meta, cs: pb::ChangeSet, c: pb::Compaction, id: u64)
    requires
        cs.initial_flush is None,
        cs.flush is None,
        cs.compaction == Some(c),
        m.can_apply(cs),
        only_moves(c),
    ensures
        ({
            let after = m.applied(cs);
            &&& forall|i: int|
                #[trigger] last_table(c.table_creates@, i) && c.table_creates@[i].id == id ==> {
                    let t = c.table_creates@[i];
                    &&& m.files.contains_key(id)
                    &&& after.files.contains_key(id)
                    &&& after.files[id] == (FileMeta {
                        cf: t.cf as i8,
                        level: t.level as u8,
                        l0_size: 0,
                        table_meta_off: t.meta_offset,
                        ..m.files[id]
                    })
                }
            &&& !names_table(c.table_creates@, id) ==> same_at(m.files, after.files, id)
            &&& after == (Meta { seq: cs.sequence, files: after.files, ..m })
        }),
{
    let s = c.table_creates@;
    assert(s.take(s.len() as int) =~= s);
    lemma_moved(m.files, s, s.len() as int, id);
    assert forall|i: int| #[trigger] last_table(s, i) && s[i].id == id implies m.files.contains_key(
        id,
    ) by {
        lemma_moved(m.files, s, i, id);
        assert(can_move(files_moved(m.files, s.take(i)), s[i]));
    }
}

proof fn lemma_moved(files: Map<u64, FileMeta>, s: Seq<pb::TableCreate>, n: int, id: u64)
    requires
        can_move_all(files, s),
        0 <= n <= s.len(),
    ensures
        ({
            let a = files_moved(files, s.take(n));
            &&& a.contains_key(id) == files.contains_key(id)
            &&& (forall|i: int| 0 <= i < n ==> (#[trigger] s[i]).id != id) ==> same_at(
                files,
                a,
                id,
            )
            &&& forall|i: int|
                0 <= i < n && (#[trigger] s[i]).id == id && (forall|j: int|
                    i < j < n ==> (#[trigger] s[j]).id != id) ==> a.contains_key(id) && a[id]
                    == placed(files[id], s[i])
        }),
    decreases n,
{
    if n > 0 {
        lemma_moved(files, s, n - 1, id);
        let before = files_moved(files, s.take(n - 1));
        let t = s[n - 1];
        assert(s.take(n).drop_last() =~= s.take(n - 1));
        assert(can_move(before, t));
        assert(s.take(n).last() == t);
        if t.id == id {
            lemma_kept_but_place(files, s, n - 1, id);
        }
    } else {
        assert(s.take(0) =~= Seq::empty());
    }
}

/// The file at the place of the message.
spec fn placed(fm: FileMeta, t: pb::TableCreate) -> FileMeta {
    FileMeta {
        cf: t.cf as i8,
        level: t.level as u8,
        l0_size: 0,
        table_meta_off: t.meta_offset,
        ..fm
    }
}

proof fn lemma_kept_but_place(
    files: Map<u64, FileMeta>,
    s: Seq<pb::TableCreate>,
    n: int,
    id: u64,
)
    requires
        can_move_all(files, s),
        0 <= n <= s.len(),
    ensures
        ({
            let a = files_moved(files, s.take(n));
            &&& a.contains_key(id) == files.contains_key(id)
            &&& files.contains_key(id) ==> a[id] == (FileMeta {
                cf: a[id].cf,
                level: a[id].level,
                l0_size: a[id].l0_size,
                table_meta_off: a[id].table_meta_off,
                ..files[id]
            })
        }),
    decreases n,
{
    if n > 0 {
        lemma_kept_but_place(files, s, n - 1, id);
        assert(s.take(n).drop_last() =~= s.take(n - 1));
        assert(can_move(files_moved(files, s.take(n - 1)), s[n - 1]));
    } else {
        assert(s.take(0) =~= Seq::empty());
    }
}

/// A compaction of all levels: each new table and each new blob table is a file of the shard.
/// A table or blob table that it deletes, and does not make, is none if it was where it is
/// deleted from. All other files stay, and no such compaction is asked for any longer.
pub proof fn law_major_compaction_replaces_tables(
    m: Meta,
    cs: pb::ChangeSet,
    c: pb::MajorCompaction,
    id: u64,
)
    requires
        cs.initial_flush is None,
        cs.flush is None,
        cs.compaction is None,
        cs.destroy_range is None,
        cs.truncate_ts is None,
        cs.trim_over_bound is None,
        cs.ingest_files is None,
        cs.restore_shard is None,
        cs.major_compaction == Some(c),
    ensures
        ({
            let after = m.applied(cs);
            let tables = c.sstable_change.table_creates@;
            let gone = m.files.contains_key(id) && (deletes(
                c.sstable_change.table_deletes@,
                m.files[id],
                FileType::Sst,
                id,
            ) || (m.files[id].file_type is Blob && m.files[id].level == 0
                && c.old_blob_tables@.contains(id)));
            &&& forall|i: int|
                #[trigger] last_table(tables, i) && tables[i].id == id && !names_blob(
                    c.new_blob_tables@,
                    id,
                ) ==> after.files.contains_key(id) && is_table_file(after.files[id], tables[i])
            &&& forall|i: int|
                #[trigger] last_blob(c.new_blob_tables@, i) && c.new_blob_tables@[i].id == id
                    ==> after.files.contains_key(id) && is_blob_file(
                    after.files[id],
                    c.new_blob_tables@[i],
                )
            &&& !names_table(tables, id) && !names_blob(c.new_blob_tables@, id) ==> if gone {
                !after.files.contains_key(id)
            } else {
                same_at(m.files, after.files, id)
            }
            &&& !after.props.contains_key(MANUAL_MAJOR_COMPACTION@)
            &&& forall|k: Seq<char>|
                k != MANUAL_MAJOR_COMPACTION@ ==> #[trigger] after.props.contains_key(k)
                    == m.props.contains_key(k) && (m.props.contains_key(k) ==> after.props[k]
                    == m.props[k])
            &&& after == (Meta {
                seq: cs.sequence,
                files: after.files,
                props: after.props,
                ..m
            })
        }),
{
    let tables = c.sstable_change.table_creates@;
    lemma_deleted(m.files, c.sstable_change.table_deletes@, FileType::Sst, id);
    let left = without_files(
        m.files,
        dels_of(c.sstable_change.table_deletes@),
        FileType::Sst,
    );
    lemma_tables_added(left, tables, id);
    let made = with_files(left, table_entries_of(tables));
    lemma_deleted_at(made, c.old_blob_tables@, 0, FileType::Blob, id);
    let next = without_files(made, dels_at(c.old_blob_tables@, 0), FileType::Blob);
    lemma_blobs_added(next, c.new_blob_tables@, id);
}

/// The table change that is the part of the change set that is applied.
pub open spec fn applies_table_change(cs: pb::ChangeSet, tc: pb::TableChange) -> bool {
    &&& cs.initial_flush is None
    &&& cs.flush is None
    &&& cs.compaction is None
    &&& {
        ||| cs.destroy_range == Some(tc)
        ||| cs.destroy_range is None && cs.truncate_ts == Some(tc)
        ||| cs.destroy_range is None && cs.truncate_ts is None && cs.trim_over_bound == Some(tc)
    }
}

/// The second of the pairs follows the first.
pub open spec fn follows(pairs: Seq<u64>, k: int, first: u64, second: u64) -> bool {
    0 <= k && 2 * k + 1 < pairs.len() && pairs[2 * k] == first && pairs[2 * k + 1] == second
}

/// Tables that lost keys are replaced, where prefixes are deleted, new versions are taken back
/// or keys outside the shard are trimmed: each new table and each new columnar file is a file
/// of the shard. One that the change deletes, and does not make, is none if it was at the level
/// that it is deleted from. All other files stay.
pub proof fn law_table_change_replaces_tables(
    m: Meta,
    cs: pb::ChangeSet,
    tc: pb::TableChange,
    id: u64,
)
    requires
        applies_table_change(cs, tc),
        m.can_apply(cs),
    ensures
        ({
            let after = m.applied(cs);
            let gone = m.files.contains_key(id) && (deletes(
                tc.table_deletes@,
                m.files[id],
                FileType::Sst,
                id,
            ) || deletes(tc.columnar_deletes@, m.files[id], FileType::Columnar, id));
            &&& forall|i: int|
                #[trigger] last_table(tc.table_creates@, i) && tc.table_creates@[i].id == id
                    && !names_columnar(tc.columnar_creates@, id) ==> after.files.contains_key(id)
                    && is_table_file(after.files[id], tc.table_creates@[i])
            &&& forall|i: int|
                #[trigger] last_columnar(tc.columnar_creates@, i) && tc.columnar_creates@[i].id
                    == id ==> after.files.contains_key(id) && is_columnar_file(
                    after.files[id],
                    tc.columnar_creates@[i],
                )
            &&& !names_table(tc.table_creates@, id) && !names_columnar(tc.columnar_creates@, id)
                ==> if gone {
                !after.files.contains_key(id)
            } else {
                same_at(m.files, after.files, id)
            }
            &&& after.data_sequence == m.data_sequence
            &&& after.max_ts == m.max_ts
            &&& after.range == m.range
            &&& after.schema == m.schema
            &&& after.columnar_table_ids == m.columnar_table_ids
            &&& after.vector_indexes == m.vector_indexes
            &&& after.parent == m.parent
            &&& after.seq == cs.sequence
        }),
{
    lemma_deleted(m.files, tc.table_deletes@, FileType::Sst, id);
    let left = without_files(m.files, dels_of(tc.table_deletes@), FileType::Sst);
    lemma_tables_added(left, tc.table_creates@, id);
    let made = with_files(left, table_entries_of(tc.table_creates@));
    lemma_deleted(made, tc.columnar_deletes@, FileType::Columnar, id);
    let next = without_files(made, dels_of(tc.columnar_deletes@), FileType::Columnar);
    lemma_columnars_added(next, tc.columnar_creates@, id);
    assert(m.applied(cs).files == files_changed(m.files, tc));
}

proof fn lemma_successors(ids: Set<u64>, pairs: Seq<u64>, n: nat, id: u64)
    requires
        2 * n <= pairs.len(),
    ensures
        ids.contains(id) ==> with_successors(ids, pairs, n).contains(id),
        forall|k: int, first: u64|
            k < n && ids.contains(first) && #[trigger] follows(pairs, k, first, id)
                ==> with_successors(ids, pairs, n).contains(id),
        with_successors(ids, pairs, n).contains(id) && !ids.contains(id) ==> exists|
            k: int,
            first: u64,
        | k < n && #[trigger] follows(pairs, k, first, id),
    decreases n,
{
    if n > 0 {
        lemma_successors(ids, pairs, (n - 1) as nat, id);
        lemma_successors(ids, pairs, (n - 1) as nat, pairs[2 * n - 2]);
        let a = pairs[2 * n - 2];
        let b = pairs[2 * n - 1];
        if b == id {
            assert(follows(pairs, n - 1, a, id));
        }
    }
}

/// What replaces a table that waits to be converted waits in its place; what the change deletes
/// waits no longer, and nothing else begins to wait.
pub proof fn law_table_change_keeps_what_waits(
    m: Meta,
    cs: pb::ChangeSet,
    tc: pb::TableChange,
    id: u64,
)
    requires
        applies_table_change(cs, tc),
        m.can_apply(cs),
    ensures
        ({
            let after = m.applied(cs);
            let gone = exists|i: int|
                0 <= i < tc.table_deletes@.len() && (#[trigger] tc.table_deletes@[i]).id == id;
            &&& gone ==> !after.unconverted_l0s.contains(id)
            &&& !gone && m.unconverted_l0s.contains(id) ==> after.unconverted_l0s.contains(id)
            &&& !gone ==> forall|k: int, first: u64|
                m.unconverted_l0s.contains(first) && #[trigger] follows(
                    tc.file_ids_map@,
                    k,
                    first,
                    id,
                ) ==> after.unconverted_l0s.contains(id)
            &&& after.unconverted_l0s.contains(id) && !m.unconverted_l0s.contains(id) ==> exists|
                k: int,
                first: u64,
            | #[trigger] follows(tc.file_ids_map@, k, first, id)
        }),
{
    let n = tc.file_ids_map@.len() / 2;
    lemma_successors(m.unconverted_l0s, tc.file_ids_map@, n, id);
    let d = del_ids(tc.table_deletes@);
    if d.contains(id) {
        let i = choose|i: int| 0 <= i < d.len() && d[i] == id;
        assert(tc.table_deletes@[i].id == id);
    }
    assert forall|i: int|
        0 <= i < tc.table_deletes@.len() && (#[trigger] tc.table_deletes@[i]).id == id implies
        d.contains(id) by {
        assert(d[i] == id);
    }
}

/// Once keys of deleted prefixes are gone, exactly the prefixes that were not dealt with are
/// still to be deleted. Other properties stay.
pub proof fn law_destroyed_prefixes_are_done(m: Meta, cs: pb::ChangeSet, p: Seq<u8>)
    requires
        cs.initial_flush is None,
        cs.flush is None,
        cs.compaction is None,
        cs.destroy_range is Some,
        m.can_apply(cs),
        m.props.contains_key(DEL_PREFIXES_KEY@),
    ensures
        ({
            let after = m.applied(cs).props;
            let left = decoded(after[DEL_PREFIXES_KEY@]);
            &&& after.contains_key(DEL_PREFIXES_KEY@)
            &&& left is Some
            &&& left->0.contains(p) <==> decoded(m.props[DEL_PREFIXES_KEY@])->0.contains(p)
                && !decoded(content(cs.property_value))->0.contains(p)
            &&& forall|k: Seq<char>|
                k != DEL_PREFIXES_KEY@ ==> #[trigger] after.contains_key(k) == m.props.contains_key(
                    k,
                ) && (m.props.contains_key(k) ==> after[k] == m.props[k])
        }),
{
    let old = decoded(m.props[DEL_PREFIXES_KEY@])->0;
    let done = decoded(content(cs.property_value))->0;
    let keep = |q: Seq<u8>| !done.contains(q);
    lemma_decoded_short(m.props[DEL_PREFIXES_KEY@]);
    lemma_filtered(old, keep, p);
    assert forall|i: int| 0 <= i < old.filter(keep).len() implies (
    #[trigger] old.filter(keep)[i]).len() < 0x1_0000 by {
        lemma_filtered(old, keep, old.filter(keep)[i]);
        let k = choose|k: int| 0 <= k < old.len() && old[k] == old.filter(keep)[i];
        assert(old[k].len() < 0x1_0000);
    }
    law_marshal_roundtrip(old.filter(keep));
}

/// Once keys outside the shard are gone, no trimming is asked for any longer. Other properties
/// stay.
pub proof fn law_trimmed_shard_is_trimmed(m: Meta, cs: pb::ChangeSet, k: Seq<char>)
    requires
        cs.initial_flush is None,
        cs.flush is None,
        cs.compaction is None,
        cs.destroy_range is None,
        cs.truncate_ts is None,
        cs.trim_over_bound is Some,
    ensures
        ({
            let after = m.applied(cs).props;
            &&& after.contains_key(TRIM_OVER_BOUND@)
            &&& after[TRIM_OVER_BOUND@].len() == 0
            &&& k != TRIM_OVER_BOUND@ ==> after.contains_key(k) == m.props.contains_key(k) && (
            m.props.contains_key(k) ==> after[k] == m.props[k])
        }),
{
}

/// Files from outside: each of them is a file of the shard, and all other files stay. A table
/// that they belong to is not kept as columns any longer. The highest timestamp reaches
/// theirs.
pub proof fn law_ingested_files_are_added(m: Meta, cs: pb::ChangeSet, f: pb::IngestFiles, id: u64)
    requires
        cs.initial_flush is None,
        cs.flush is None,
        cs.compaction is None,
        cs.destroy_range is None,
        cs.truncate_ts is None,
        cs.trim_over_bound is None,
        cs.ingest_files == Some(f),
    ensures
        ({
            let after = m.applied(cs);
            &&& forall|i: int|
                #[trigger] last_table(f.table_creates@, i) && f.table_creates@[i].id == id
                    && !names_l0(f.l0_creates@, id) && !names_blob(f.blob_creates@, id)
                    ==> after.files.contains_key(id) && is_table_file(
                    after.files[id],
                    f.table_creates@[i],
                )
            &&& forall|i: int|
                #[trigger] last_l0(f.l0_creates@, i) && f.l0_creates@[i].id == id && !names_blob(
                    f.blob_creates@,
                    id,
                ) ==> after.files.contains_key(id) && is_l0_file(
                    after.files[id],
                    f.l0_creates@[i],
                )
            &&& forall|i: int|
                #[trigger] last_blob(f.blob_creates@, i) && f.blob_creates@[i].id == id
                    ==> after.files.contains_key(id) && is_blob_file(
                    after.files[id],
                    f.blob_creates@[i],
                )
            &&& !names_table(f.table_creates@, id) && !names_l0(f.l0_creates@, id) && !names_blob(
                f.blob_creates@,
                id,
            ) ==> same_at(m.files, after.files, id)
            &&& forall|t: i64| #[trigger]
                after.columnar_table_ids.contains(t) <==> m.columnar_table_ids.contains(t)
                    && f.table_id != Some(t)
            &&& after.max_ts >= m.max_ts && after.max_ts >= f.max_ts
            &&& after.max_ts == m.max_ts || after.max_ts == f.max_ts
            &&& after.props == set_all(m.props, f.properties)
            &&& after == (Meta {
                seq: cs.sequence,
                files: after.files,
                columnar_table_ids: after.columnar_table_ids,
                max_ts: after.max_ts,
                props: after.props,
                ..m
            })
        }),
{
    lemma_tables_added(m.files, f.table_creates@, id);
    let a = with_files(m.files, table_entries_of(f.table_creates@));
    lemma_l0s_added(a, f.l0_creates@, id);
    let b = with_files(a, l0_entries_of(f.l0_creates@));
    lemma_blobs_added(b, f.blob_creates@, id);
    let after = m.applied(cs);
    assert forall|t: i64| #[trigger] after.columnar_table_ids.contains(
        t,
    ) <==> m.columnar_table_ids.contains(t) && f.table_id != Some(t) by {
        if let Some(gone) = f.table_id {
            lemma_filtered(m.columnar_table_ids, |x: i64| x != gone, t);
        }
    }
}

/// An index of the list has the file.
pub open spec fn names_in_indexes(v: Seq<pb::VectorIndex>, id: u64) -> bool {
    exists|i: int| 0 <= i < v.len() && names_vector((#[trigger] v[i]).files@, id)
}

proof fn lemma_indexes_added(m: Map<u64, FileMeta>, v: Seq<pb::VectorIndex>, id: u64)
    ensures
        ({
            let a = with_vectors(m, v);
            &&& !names_in_indexes(v, id) ==> same_at(m, a, id)
            &&& names_in_indexes(v, id) ==> a.contains_key(id) && a[id].file_type is VectorIndex
        }),
    decreases v.len(),
{
    if v.len() > 0 {
        let init = v.drop_last();
        lemma_indexes_added(m, init, id);
        lemma_vectors_added(with_vectors(m, init), v.last().files@, id);
        assert(v[v.len() - 1] == v.last());
        if names_in_indexes(init, id) {
            let i = choose|i: int| 0 <= i < init.len() && names_vector((#[trigger] init[i]).files@, id);
            assert(v[i] == init[i]);
        }
        if names_in_indexes(v, id) && !names_vector(v.last().files@, id) {
            let i = choose|i: int| 0 <= i < v.len() && names_vector((#[trigger] v[i]).files@, id);
            assert(init[i] == v[i]);
        }
    }
}

/// The files of a snapshot are those that it lists, each as it is listed.
pub proof fn law_snapshot_has_the_files_that_it_lists(snap: pb::Snapshot, id: u64)
    ensures
        ({
            let files = snap_files(snap);
            let vector = names_in_indexes(snap.vector_indexes@, id);
            let columnar = names_columnar(snap.columnar_creates@, id);
            let table = names_table(snap.table_creates@, id);
            let blob = names_blob(snap.blob_creates@, id);
            &&& files.contains_key(id) <==> vector || columnar || table || blob || names_l0(
                snap.l0_creates@,
                id,
            )
            &&& vector ==> files[id].file_type is VectorIndex
            &&& !vector ==> forall|i: int|
                #[trigger] last_columnar(snap.columnar_creates@, i) && snap.columnar_creates@[i].id
                    == id ==> is_columnar_file(files[id], snap.columnar_creates@[i])
            &&& !vector && !columnar ==> forall|i: int|
                #[trigger] last_table(snap.table_creates@, i) && snap.table_creates@[i].id == id
                    ==> is_table_file(files[id], snap.table_creates@[i])
            &&& !vector && !columnar && !table ==> forall|i: int|
                #[trigger] last_blob(snap.blob_creates@, i) && snap.blob_creates@[i].id == id
                    ==> is_blob_file(files[id], snap.blob_creates@[i])
            &&& !vector && !columnar && !table && !blob ==> forall|i: int|
                #[trigger] last_l0(snap.l0_creates@, i) && snap.l0_creates@[i].id == id
                    ==> is_l0_file(files[id], snap.l0_creates@[i])
        }),
{
    let e = Map::<u64, FileMeta>::empty();
    lemma_l0s_added(e, snap.l0_creates@, id);
    let a = with_files(e, l0_entries_of(snap.l0_creates@));
    lemma_blobs_added(a, snap.blob_creates@, id);
    let b = with_files(a, blob_entries_of(snap.blob_creates@));
    lemma_tables_added(b, snap.table_creates@, id);
    let c = with_files(b, table_entries_of(snap.table_creates@));
    lemma_columnars_added(c, snap.columnar_creates@, id);
    let d = with_files(c, columnar_entries_of(snap.columnar_creates@));
    lemma_indexes_added(d, snap.vector_indexes@, id);
}

/// A change set that holds a whole shard gives a shard of its id, with the range, the versions
/// and the lists of the snapshot. A major compaction is not asked for.
pub proof fn law_whole_shard_is_that_of_the_snapshot(
    engine_id: u64,
    cs: pb::ChangeSet,
    snap: pb::Snapshot,
)
    requires
        cs.snapshot == Some(snap) || (cs.snapshot is None && cs.initial_flush == Some(snap)) || (
        cs.snapshot is None && cs.initial_flush is None && cs.restore_shard == Some(snap)),
    ensures
        ({
            let m = Meta::of(engine_id, cs);
            &&& m.engine_id == engine_id && m.id == cs.shard_id && m.ver == cs.shard_ver
            &&& m.seq == cs.sequence
            &&& m.range.start == content(snap.outer_start)
            &&& m.range.end == content(snap.outer_end)
            &&& m.inner_key_off == snap.inner_key_off as usize
            &&& m.files == snap_files(snap)
            &&& m.base_version == snap.base_version
            &&& m.data_sequence == snap.data_sequence
            &&& m.max_ts == snap.max_ts
            &&& m.parent is Some <==> cs.parent is Some
            &&& cs.parent matches Some(p) ==> *m.parent->0 == Meta::of(engine_id, *p)
            &&& snap.schema_meta matches Some(sm) ==> m.schema.schema_file_id == sm.file_id
                && m.schema.schema_file_ver == sm.version && m.schema.schema_restore_ver
                == sm.restore_version
            &&& snap.schema_meta is None ==> m.schema.schema_file_id == 0
            &&& m.columnar_table_ids == snap.columnar_table_ids@
            &&& forall|id: u64| #[trigger]
                m.unconverted_l0s.contains(id) <==> snap.unconverted_l0s@.contains(id)
            &&& m.vector_indexes.len() == snap.vector_indexes@.len()
            &&& forall|i: int|
                0 <= i < m.vector_indexes.len() ==> {
                    let v = #[trigger] m.vector_indexes[i];
                    let w = snap.vector_indexes@[i];
                    v == (Vector {
                        table_id: w.table_id,
                        index_id: w.index_id,
                        col_id: w.col_id,
                        snap_version: w.snap_version,
                        files: w.files@,
                    })
                }
            &&& forall|x: (i64, i64)| #[trigger]
                m.fts_indexes.contains(x) <==> names_pair(snap.fts_indexes@, x)
            &&& m.columnar_l2_snap_version.version == snap.columnar_l2_snap_version
            &&& m.fts_l0_snap_version.version == snap.fts_l0_snap_version
            &&& m.fts_l0_files == snap.fts_l0_files@
            &&& m.fts_l1_files == snap.fts_l1_files@
            &&& m.fts_l2_files == snap.fts_l2_files@
            &&& m.fts_pending_l0_ids == snap.fts_pending_l0_ids@
            &&& !m.props.contains_key(MANUAL_MAJOR_COMPACTION@)
            &&& forall|k: Seq<char>|
                k != MANUAL_MAJOR_COMPACTION@ ==> {
                    let set = match snap.properties {
                        Some(p) => set_all(Map::empty(), p),
                        None => Map::empty(),
                    };
                    #[trigger] m.props.contains_key(k) == set.contains_key(k) && (
                    set.contains_key(k) ==> m.props[k] == set[k])
                }
        }),
{
    assert forall|x: (i64, i64)| #[trigger] Meta::of(engine_id, cs).fts_indexes.contains(
        x,
    ) <==> names_pair(snap.fts_indexes@, x) by {
        lemma_pairs(snap.fts_indexes@, x);
    }
}

/// A first flush brings the whole shard. The shard keeps its range, and each property that the
/// snapshot does not have; the sequence and the highest timestamp of the data do not fall.
pub proof fn law_first_flush_brings_the_shard(m: Meta, cs: pb::ChangeSet, k: Seq<char>)
    requires
        cs.initial_flush is Some,
        m.can_apply(cs),
    ensures
        ({
            let after = m.applied(cs);
            let new = Meta::of(m.engine_id, cs);
            &&& after.files == new.files
            &&& after.range == m.range
            &&& after.locks == m.locks
            &&& after.data_sequence >= m.data_sequence && after.data_sequence >= new.data_sequence
            &&& after.data_sequence == m.data_sequence || after.data_sequence == new.data_sequence
            &&& after.max_ts >= m.max_ts && after.max_ts >= new.max_ts
            &&& after.max_ts == m.max_ts || after.max_ts == new.max_ts
            &&& after.parent == new.parent
            &&& new.props.contains_key(k) ==> after.props.contains_key(k) && after.props[k]
                == new.props[k]
            &&& !new.props.contains_key(k) ==> after.props.contains_key(k) == m.props.contains_key(
                k,
            ) && (m.props.contains_key(k) ==> after.props[k] == m.props[k])
            &&& after.id == cs.shard_id && after.ver == cs.shard_ver && after.seq == cs.sequence
            &&& after.base_version == new.base_version
            &&& after.schema == new.schema
            &&& after.columnar_table_ids == new.columnar_table_ids
            &&& after.unconverted_l0s == new.unconverted_l0s
            &&& after.vector_indexes == new.vector_indexes
        }),
{
}

/// A restore brings the whole shard, and its version moves on: it is newer than that of the
/// change set.
pub proof fn law_restored_shard_is_newer(m: Meta, cs: pb::ChangeSet)
    requires
        cs.initial_flush is None,
        cs.flush is None,
        cs.compaction is None,
        cs.destroy_range is None,
        cs.truncate_ts is None,
        cs.trim_over_bound is None,
        cs.ingest_files is None,
        cs.restore_shard is Some,
        m.can_apply(cs),
    ensures
        ({
            let after = m.applied(cs);
            let new = Meta::of(m.engine_id, cs);
            &&& after.ver == cs.shard_ver + 1
            &&& after.data_sequence == cs.sequence
            &&& after == (Meta { ver: after.ver, data_sequence: after.data_sequence, ..new })
        }),
{
}

/// The parts of a change set that come before those of columns, vectors and text.
pub open spec fn no_row_part(cs: pb::ChangeSet) -> bool {
    &&& cs.initial_flush is None
    &&& cs.flush is None
    &&& cs.compaction is None
    &&& cs.destroy_range is None
    &&& cs.truncate_ts is None
    &&& cs.trim_over_bound is None
    &&& cs.ingest_files is None
    &&& cs.restore_shard is None
    &&& cs.major_compaction is None
}

/// Another schema file is known from now on, and nothing else changes.
pub proof fn law_schema_is_updated(m: Meta, cs: pb::ChangeSet, sm: pb::SchemaMeta)
    requires
        no_row_part(cs),
        cs.update_schema_meta == Some(sm),
    ensures
        ({
            let after = m.applied(cs);
            &&& after.schema.schema_file_id == sm.file_id
            &&& after.schema.schema_file_ver == sm.version
            &&& after.schema.schema_restore_ver == m.schema.schema_restore_ver
            &&& after == (Meta { seq: cs.sequence, schema: after.schema, ..m })
        }),
{
}

/// One of the tables is in the span.
pub open spec fn one_of_tables(ids: Seq<i64>, span: pb::TableIdSpan) -> bool {
    exists|i: int| 0 <= i < ids.len() && span.min <= #[trigger] ids[i] <= span.max
}

/// A compaction of columnar files: each new file that is not deleted too is a file of the
/// shard, those that it deletes are none, and all others stay. The tables that are kept as
/// columns are those that were and those that it adds, but for those that it clears.
pub proof fn law_columnar_compaction_replaces_files(
    m: Meta,
    cs: pb::ChangeSet,
    c: pb::ColumnarCompaction,
    id: u64,
    table: i64,
)
    requires
        no_row_part(cs),
        cs.update_schema_meta is None,
        cs.columnar_compaction == Some(c),
    ensures
        ({
            let after = m.applied(cs);
            let creates = c.columnar_change.columnar_creates@;
            let gone = exists|i: int|
                0 <= i < c.columnar_change.columnar_deletes@.len() && (
                #[trigger] c.columnar_change.columnar_deletes@[i]).id == id;
            &&& gone ==> !after.files.contains_key(id)
            &&& !gone ==> forall|i: int|
                #[trigger] last_columnar(creates, i) && creates[i].id == id
                    ==> after.files.contains_key(id) && is_columnar_file(
                    after.files[id],
                    creates[i],
                )
            &&& !gone && !names_columnar(creates, id) ==> same_at(m.files, after.files, id)
            &&& c.snap_version != 0 ==> {
                &&& after.columnar_table_ids.contains(table) <==> (m.columnar_table_ids.contains(
                    table,
                ) || c.columnar_table_ids@.contains(table))
                    && !c.columnar_table_ids_to_clear@.contains(table)
                &&& after.schema == m.schema
                &&& after.columnar_table_ids.len() > 0 ==> (after.unconverted_l0s.contains(id)
                    <==> !c.row_l0s@.contains(id) && (m.unconverted_l0s.contains(id) || (
                m.columnar_table_ids.len() == 0 && after.files.contains_key(id)
                    && after.files[id].file_type is Sst && after.files[id].level == 0)))
                &&& after.columnar_table_ids.len() == 0 ==> after.unconverted_l0s
                    == Set::<u64>::empty()
                &&& forall|v: Vector| #[trigger]
                    after.vector_indexes.contains(v) <==> m.vector_indexes.contains(v)
                        && after.columnar_table_ids.contains(v.table_id)
                &&& forall|f: pb::FtsPackedFileInfo| #[trigger]
                    after.fts_l0_files.contains(f) <==> m.fts_l0_files.contains(f)
                        && one_of_tables(after.columnar_table_ids, f.table_ids)
                &&& forall|f: pb::FtsPackedFileInfo| #[trigger]
                    after.fts_l1_files.contains(f) <==> m.fts_l1_files.contains(f)
                        && one_of_tables(after.columnar_table_ids, f.table_ids)
                &&& forall|f: pb::FtsDedFileInfo| #[trigger]
                    after.fts_l2_files.contains(f) <==> m.fts_l2_files.contains(f)
                        && one_of_tables(after.columnar_table_ids, f.table_ids)
                &&& forall|x: (i64, i64)| #[trigger]
                    after.fts_indexes.contains(x) <==> m.fts_indexes.contains(x)
                        && after.columnar_table_ids.contains(x.0)
                &&& after.fts_pending_l0_ids.contains(id) <==> m.fts_pending_l0_ids.contains(id)
                    && after.files.contains_key(id) && one_of_tables(
                    after.columnar_table_ids,
                    after.files[id].table_ids,
                )
            }
            &&& c.snap_version == 0 ==> {
                &&& after.columnar_table_ids.len() == 0
                &&& after.unconverted_l0s == Set::<u64>::empty()
                &&& after.vector_indexes.len() == 0
                &&& after.schema.schema_file_id == 0
                &&& after.schema.schema_restore_ver == m.schema.schema_restore_ver
                &&& after.fts_l0_files.len() == 0 && after.fts_l1_files.len() == 0
                    && after.fts_l2_files.len() == 0
            }
            &&& after.columnar_l2_snap_version == if c.target_level == 2 {
                SnapVersion { version: c.snap_version }
            } else {
                m.columnar_l2_snap_version
            }
            &&& c.is_manual_major_compaction ==> !after.props.contains_key(MANUAL_MAJOR_COMPACTION@)
            &&& !c.is_manual_major_compaction ==> after.props == m.props
            &&& after.range == m.range && after.data_sequence == m.data_sequence && after.max_ts
                == m.max_ts && after.seq == cs.sequence && after.parent == m.parent
        }),
{
    let after = m.applied(cs);
    let creates = c.columnar_change.columnar_creates@;
    let dels = c.columnar_change.columnar_deletes@;
    lemma_columnars_added(m.files, creates, id);
    let d = del_ids(dels);
    if d.contains(id) {
        let i = choose|i: int| 0 <= i < d.len() && d[i] == id;
        assert(dels[i].id == id);
    }
    assert forall|i: int| 0 <= i < dels.len() && (#[trigger] dels[i]).id == id implies d.contains(
        id,
    ) by {
        assert(d[i] == id);
    }
    let all = m.columnar_table_ids + c.columnar_table_ids@;
    let keep = |x: i64| !c.columnar_table_ids_to_clear@.contains(x);
    law_sort_dedup(all);
    lemma_joined(m.columnar_table_ids, c.columnar_table_ids@, table);
    lemma_filtered(sort_dedup(all), keep, table);
    let ids = sort_dedup(all).filter(keep);
    if c.snap_version != 0 {
        assert forall|v: Vector| #[trigger] after.vector_indexes.contains(
            v,
        ) <==> m.vector_indexes.contains(v) && after.columnar_table_ids.contains(v.table_id) by {
            lemma_filtered(m.vector_indexes, |x: Vector| ids.contains(x.table_id), v);
        }
        assert forall|f: pb::FtsPackedFileInfo| #[trigger] after.fts_l0_files.contains(
            f,
        ) <==> m.fts_l0_files.contains(f) && one_of_tables(ids, f.table_ids) by {
            lemma_filtered(
                m.fts_l0_files,
                |f: pb::FtsPackedFileInfo| any_between(ids, f.table_ids.min, f.table_ids.max),
                f,
            );
        }
        assert forall|f: pb::FtsPackedFileInfo| #[trigger] after.fts_l1_files.contains(
            f,
        ) <==> m.fts_l1_files.contains(f) && one_of_tables(ids, f.table_ids) by {
            lemma_filtered(
                m.fts_l1_files,
                |f: pb::FtsPackedFileInfo| any_between(ids, f.table_ids.min, f.table_ids.max),
                f,
            );
        }
        assert forall|f: pb::FtsDedFileInfo| #[trigger] after.fts_l2_files.contains(
            f,
        ) <==> m.fts_l2_files.contains(f) && one_of_tables(ids, f.table_ids) by {
            lemma_filtered(
                m.fts_l2_files,
                |f: pb::FtsDedFileInfo| any_between(ids, f.table_ids.min, f.table_ids.max),
                f,
            );
        }
        let files = after.files;
        lemma_filtered(
            m.fts_pending_l0_ids,
            |id: u64|
                files.contains_key(id) && any_between(
                    ids,
                    files[id].table_ids.min,
                    files[id].table_ids.max,
                ),
            id,
        );
    }
}

/// The index is the first of the list with the ids.
pub open spec fn first_index(s: Seq<Vector>, u: pb::UpdateVectorIndex, i: int) -> bool {
    &&& 0 <= i < s.len()
    &&& s[i].table_id == u.table_id && s[i].index_id == u.index_id && s[i].col_id == u.col_id
    &&& forall|j: int|
        0 <= j < i ==> !((#[trigger] s[j]).table_id == u.table_id && s[j].index_id == u.index_id
            && s[j].col_id == u.col_id)
}

proof fn lemma_vectors_updated(s: Seq<Vector>, u: pb::UpdateVectorIndex, i: int)
    requires
        first_index(s, u, i),
    ensures
        vectors_updated(s, u) =~= s.update(i, s[i].updated(u)),
    decreases s.len(),
{
    if i > 0 {
        let rest = s.drop_first();
        assert(!s[0].is_of(u.table_id, u.index_id, u.col_id));
        assert forall|j: int| 0 <= j < i - 1 implies !((#[trigger] rest[j]).table_id == u.table_id
            && rest[j].index_id == u.index_id && rest[j].col_id == u.col_id) by {
            assert(s[j + 1] == rest[j]);
        }
        lemma_vectors_updated(rest, u, i - 1);
    }
}

proof fn lemma_vectors_appended(s: Seq<Vector>, u: pb::UpdateVectorIndex)
    requires
        forall|i: int| 0 <= i < s.len() ==> !(#[trigger] s[i]).is_of(u.table_id, u.index_id, u.col_id),
    ensures
        vectors_updated(s, u) =~= s + vectors_updated(Seq::empty(), u),
    decreases s.len(),
{
    if s.len() > 0 {
        let rest = s.drop_first();
        assert forall|i: int| 0 <= i < rest.len() implies !(#[trigger] rest[i]).is_of(
            u.table_id,
            u.index_id,
            u.col_id,
        ) by {
            assert(s[i + 1] == rest[i]);
        }
        assert(!s[0].is_of(u.table_id, u.index_id, u.col_id));
        lemma_vectors_appended(rest, u);
    } else {
        assert(s =~= Seq::empty());
    }
}

/// An update of a vector index: the index has the files that it had and that are not removed,
/// and those that are added; where there is no such index there is one with the added files.
/// Other indexes stay.
pub proof fn law_vector_index_is_updated(m: Meta, cs: pb::ChangeSet, u: pb::UpdateVectorIndex)
    requires
        no_row_part(cs),
        cs.update_schema_meta is None,
        cs.columnar_compaction is None,
        cs.update_vector_index == Some(u),
    ensures
        ({
            let old = m.vector_indexes;
            let new = m.applied(cs).vector_indexes;
            &&& forall|i: int| #[trigger]
                first_index(old, u, i) ==> {
                    &&& new.len() == old.len()
                    &&& forall|j: int| 0 <= j < old.len() && j != i ==> #[trigger] new[j] == old[j]
                    &&& new[i].table_id == u.table_id && new[i].index_id == u.index_id
                        && new[i].col_id == u.col_id
                    &&& new[i].snap_version == u.snap_version
                    &&& forall|f: pb::VectorIndexFile| #[trigger]
                        new[i].files.contains(f) <==> (old[i].files.contains(f)
                            && !u.removed@.contains(f.id)) || u.added@.contains(f)
                }
            &&& (forall|i: int| !#[trigger] first_index(old, u, i)) ==> {
                &&& new.len() == old.len() + 1
                &&& forall|j: int| 0 <= j < old.len() ==> #[trigger] new[j] == old[j]
                &&& new.last() == (Vector {
                    table_id: u.table_id,
                    index_id: u.index_id,
                    col_id: u.col_id,
                    snap_version: u.snap_version,
                    files: u.added@,
                })
            }
            &&& m.applied(cs) == (Meta { seq: cs.sequence, vector_indexes: new, ..m })
        }),
{
    let old = m.vector_indexes;
    let new = m.applied(cs).vector_indexes;
    assert forall|i: int| #[trigger] first_index(old, u, i) implies {
        &&& new.len() == old.len()
        &&& forall|j: int| 0 <= j < old.len() && j != i ==> #[trigger] new[j] == old[j]
        &&& new[i].table_id == u.table_id && new[i].index_id == u.index_id && new[i].col_id
            == u.col_id
        &&& new[i].snap_version == u.snap_version
        &&& forall|f: pb::VectorIndexFile| #[trigger]
            new[i].files.contains(f) <==> (old[i].files.contains(f) && !u.removed@.contains(f.id))
                || u.added@.contains(f)
    } by {
        lemma_vectors_updated(old, u, i);
        let keep = |f: pb::VectorIndexFile| !u.removed@.contains(f.id);
        assert forall|f: pb::VectorIndexFile| #[trigger] new[i].files.contains(f) <==> (
        old[i].files.contains(f) && !u.removed@.contains(f.id)) || u.added@.contains(f) by {
            lemma_joined(old[i].files.filter(keep), u.added@, f);
            lemma_filtered(old[i].files, keep, f);
        }
    }
    if forall|i: int| !#[trigger] first_index(old, u, i) {
        lemma_no_index(old, u, old.len() as int);
        lemma_vectors_appended(old, u);
    }
}

proof fn lemma_no_index(s: Seq<Vector>, u: pb::UpdateVectorIndex, n: int)
    requires
        forall|i: int| !#[trigger] first_index(s, u, i),
        0 <= n <= s.len(),
    ensures
        forall|i: int| 0 <= i < n ==> !(#[trigger] s[i]).is_of(u.table_id, u.index_id, u.col_id),
    decreases n,
{
    if n > 0 {
        lemma_no_index(s, u, n - 1);
        assert(!first_index(s, u, n - 1));
    }
}

/// An update of full text search: files that are added are there and files that are removed are
/// not, and so are indexes. What leads to nothing tracked leaves nothing pending.
pub proof fn law_full_text_files_are_updated(m: Meta, cs: pb::ChangeSet, u: pb::FtsUpdate)
    requires
        no_row_part(cs),
        cs.update_schema_meta is None,
        cs.columnar_compaction is None,
        cs.update_vector_index is None,
        cs.fts_update == Some(u),
    ensures
        ({
            let after = m.applied(cs);
            &&& u.clear_all ==> {
                &&& after.fts_l0_files.len() == 0 && after.fts_l1_files.len() == 0
                &&& after.fts_l2_files.len() == 0 && after.fts_pending_l0_ids.len() == 0
                &&& after.fts_l0_snap_version.version == 0
                &&& forall|x: (i64, i64)| !after.fts_indexes.contains(x)
            }
            &&& !u.clear_all ==> {
                &&& forall|f: pb::FtsPackedFileInfo| #[trigger]
                    after.fts_l0_files.contains(f) <==> (m.fts_l0_files.contains(f)
                        || u.l0_add_files@.contains(f)) && !u.l0_remove_files@.contains(f.id)
                &&& forall|f: pb::FtsPackedFileInfo| #[trigger]
                    after.fts_l1_files.contains(f) <==> (m.fts_l1_files.contains(f)
                        || u.l1_add_files@.contains(f)) && !u.l1_remove_files@.contains(f.id)
                &&& forall|f: pb::FtsDedFileInfo| #[trigger]
                    after.fts_l2_files.contains(f) <==> (m.fts_l2_files.contains(f)
                        || u.l2_add_files@.contains(f)) && !u.l2_remove_files@.contains(f.id)
                &&& after.fts_l0_snap_version.version == if u.set_snap_version > 0 {
                    u.set_snap_version
                } else {
                    m.fts_l0_snap_version.version
                }
                &&& forall|x: (i64, i64)| #[trigger]
                    after.fts_indexes.contains(x) <==> names_pair(u.add_tracked_indexes@, x) || (
                    m.fts_indexes.contains(x) && !names_pair(u.remove_tracked_indexes@, x))
                &&& forall|id: u64| #[trigger]
                    after.fts_pending_l0_ids.contains(id) <==> m.fts_pending_l0_ids.contains(id)
                        && !u.pending_columnar_l0_remove_files@.contains(id) && exists|
                        x: (i64, i64),
                    | after.fts_indexes.contains(x)
            }
            &&& after.files == m.files && after.props == m.props && after.vector_indexes
                == m.vector_indexes && after.columnar_table_ids == m.columnar_table_ids
                && after.unconverted_l0s == m.unconverted_l0s && after.schema == m.schema
        }),
{
    let after = m.applied(cs);
    if !u.clear_all {
        assert forall|f: pb::FtsPackedFileInfo| #[trigger] after.fts_l0_files.contains(f) <==> (
        m.fts_l0_files.contains(f) || u.l0_add_files@.contains(f)) && !u.l0_remove_files@.contains(
            f.id,
        ) by {
            lemma_joined(m.fts_l0_files, u.l0_add_files@, f);
            lemma_filtered(
                m.fts_l0_files + u.l0_add_files@,
                |f: pb::FtsPackedFileInfo| !u.l0_remove_files@.contains(f.id),
                f,
            );
        }
        assert forall|f: pb::FtsPackedFileInfo| #[trigger] after.fts_l1_files.contains(f) <==> (
        m.fts_l1_files.contains(f) || u.l1_add_files@.contains(f)) && !u.l1_remove_files@.contains(
            f.id,
        ) by {
            lemma_joined(m.fts_l1_files, u.l1_add_files@, f);
            lemma_filtered(
                m.fts_l1_files + u.l1_add_files@,
                |f: pb::FtsPackedFileInfo| !u.l1_remove_files@.contains(f.id),
                f,
            );
        }
        assert forall|f: pb::FtsDedFileInfo| #[trigger] after.fts_l2_files.contains(f) <==> (
        m.fts_l2_files.contains(f) || u.l2_add_files@.contains(f)) && !u.l2_remove_files@.contains(
            f.id,
        ) by {
            lemma_joined(m.fts_l2_files, u.l2_add_files@, f);
            lemma_filtered(
                m.fts_l2_files + u.l2_add_files@,
                |f: pb::FtsDedFileInfo| !u.l2_remove_files@.contains(f.id),
                f,
            );
        }
        assert forall|x: (i64, i64)| #[trigger] after.fts_indexes.contains(x) <==> names_pair(
            u.add_tracked_indexes@,
            x,
        ) || (m.fts_indexes.contains(x) && !names_pair(u.remove_tracked_indexes@, x)) by {
            lemma_pairs(u.add_tracked_indexes@, x);
            lemma_pairs(u.remove_tracked_indexes@, x);
        }
        let none = after.fts_indexes == Set::<(i64, i64)>::empty();
        assert(none <==> !exists|x: (i64, i64)| after.fts_indexes.contains(x)) by {
            if !exists|x: (i64, i64)| after.fts_indexes.contains(x) {
                assert(after.fts_indexes =~= Set::empty());
            }
        }
        let pending = if none {
            Seq::empty()
        } else {
            m.fts_pending_l0_ids
        };
        assert forall|id: u64| #[trigger] after.fts_pending_l0_ids.contains(
            id,
        ) <==> m.fts_pending_l0_ids.contains(id) && !u.pending_columnar_l0_remove_files@.contains(
            id,
        ) && exists|x: (i64, i64)| after.fts_indexes.contains(x) by {
            lemma_filtered(
                pending,
                |id: u64| !u.pending_columnar_l0_remove_files@.contains(id),
                id,
            );
        }
    }
}

/// The list names the pair of a table and an index.
pub open spec fn names_pair(s: Seq<pb::TableIndexId>, x: (i64, i64)) -> bool {
    exists|i: int| 0 <= i < s.len() && (#[trigger] s[i]).table_id == x.0 && s[i].index_id == x.1
}

proof fn lemma_pairs(s: Seq<pb::TableIndexId>, x: (i64, i64))
    ensures
        index_pairs(s).contains(x) <==> names_pair(s, x),
{
    let p = Seq::new(s.len(), |i: int| (s[i].table_id, s[i].index_id));
    if names_pair(s, x) {
        let i = choose|i: int|
            0 <= i < s.len() && (#[trigger] s[i]).table_id == x.0 && s[i].index_id == x.1;
        assert(p[i] == x);
    }
    if p.contains(x) {
        let i = choose|i: int| 0 <= i < p.len() && p[i] == x;
        assert(s[i].table_id == x.0);
    }
}

/// Once columns are cleared, the files of rows are there as they were, and no others. No table
/// is kept as columns and none waits for it.
pub proof fn law_columns_are_cleared(m: Meta, cs: pb::ChangeSet, id: u64)
    requires
        no_row_part(cs),
        cs.update_schema_meta is None,
        cs.columnar_compaction is None,
        cs.update_vector_index is None,
        cs.fts_update is None,
        cs.clear_columnar || cs.clear_columnar_with_restore_version is Some,
    ensures
        ({
            let after = m.applied(cs);
            let row = m.files.contains_key(id) && (m.files[id].file_type is Sst
                || m.files[id].file_type is Blob || m.files[id].file_type is TxnChunk);
            &&& row ==> same_at(m.files, after.files, id)
            &&& !row ==> !after.files.contains_key(id)
            &&& after.columnar_table_ids.len() == 0
            &&& after.unconverted_l0s == Set::<u64>::empty()
            &&& after.vector_indexes.len() == 0
            &&& after.columnar_l2_snap_version.version == 0
            &&& after.fts_l0_files.len() == 0 && after.fts_l1_files.len() == 0
                && after.fts_l2_files.len() == 0 && after.fts_pending_l0_ids.len() == 0
            &&& after.schema.schema_file_id == 0
            &&& after.schema.schema_restore_ver == match cs.clear_columnar_with_restore_version {
                Some(v) => v,
                None => m.schema.schema_restore_ver,
            }
            &&& after.props == m.props && after.range == m.range && after.data_sequence
                == m.data_sequence && after.max_ts == m.max_ts && after.seq == cs.sequence
        }),
{
}

/// What differs from an earlier snapshot: the version, the properties of the message and, where
/// the message has them, the sequence of the data and the schema. The files stay.
pub proof fn law_snapshot_difference_is_taken(m: Meta, cs: pb::ChangeSet, snap: pb::Snapshot)
    requires
        no_row_part(cs),
        cs.update_schema_meta is None,
        cs.columnar_compaction is None,
        cs.update_vector_index is None,
        cs.fts_update is None,
        !cs.clear_columnar,
        cs.clear_columnar_with_restore_version is None,
        cs.snapshot_diff == Some(snap),
    ensures
        ({
            let after = m.applied(cs);
            &&& after.ver == cs.shard_ver
            &&& snap.data_sequence > 0 ==> after.data_sequence == snap.data_sequence
            &&& snap.data_sequence == 0 ==> after.data_sequence == m.data_sequence
            &&& snap.schema_meta matches Some(sm) ==> after.schema.schema_file_id == sm.file_id
                && after.schema.schema_file_ver == sm.version && after.schema.schema_restore_ver
                == sm.restore_version
            &&& snap.schema_meta is None ==> after.schema == m.schema
            &&& snap.properties matches Some(p) ==> after.props == set_all(m.props, p)
            &&& snap.properties is None ==> after.props == m.props
            &&& after == (Meta {
                seq: cs.sequence,
                ver: after.ver,
                data_sequence: after.data_sequence,
                schema: after.schema,
                props: after.props,
                ..m
            })
        }),
{
}

/// A property is set to its value, or its prefix is added to those to be deleted, or a storage
/// class that says nothing is dropped. Other properties and all else stay.
pub proof fn law_property_is_set(m: Meta, cs: pb::ChangeSet, k: Seq<char>)
    requires
        no_row_part(cs),
        cs.update_schema_meta is None,
        cs.columnar_compaction is None,
        cs.update_vector_index is None,
        cs.fts_update is None,
        !cs.clear_columnar,
        cs.clear_columnar_with_restore_version is None,
        cs.snapshot_diff is None,
        m.can_apply(cs),
        content(cs.property_value).len() < 0x1_0000,
    ensures
        ({
            let after = m.applied(cs);
            let key = if cs.property_merge {
                DEL_PREFIXES_KEY@
            } else {
                cs.property_key@
            };
            let dropped = !cs.property_merge && cs.property_key@ == STORAGE_CLASS_KEY@
                && !cs.storage_class.specified;
            &&& k != key ==> after.props.contains_key(k) == m.props.contains_key(k) && (
            m.props.contains_key(k) ==> after.props[k] == m.props[k])
            &&& dropped ==> !after.props.contains_key(key)
            &&& !dropped ==> after.props.contains_key(key)
            &&& !dropped && !cs.property_merge ==> after.props[key] == content(cs.property_value)
            &&& cs.property_merge ==> decoded(after.props[key]) == Some(
                merge_one(
                    if m.props.contains_key(key) {
                        decoded(m.props[key])->0
                    } else {
                        Seq::empty()
                    },
                    content(cs.property_value),
                ),
            )
            &&& after == (Meta { seq: cs.sequence, props: after.props, ..m })
        }),
{
    if cs.property_merge {
        let old = deletions(m.props);
        if m.props.contains_key(DEL_PREFIXES_KEY@) {
            lemma_decoded_short(m.props[DEL_PREFIXES_KEY@]);
        }
        lemma_merge_one_short(old, content(cs.property_value));
        law_marshal_roundtrip(merge_one(old, content(cs.property_value)));
    }
}

} // verus!
