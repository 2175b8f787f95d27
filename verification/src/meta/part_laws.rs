//! What the parts of a split shard and a merged shard consist of, told by the shards that they
//! were made from.
use vstd::prelude::*;

use crate::pb;
use crate::bound::Bound;
use crate::buf::content;
use crate::del_prefixes::{
    all_short, covered, decoded, encoded, law_marshal_roundtrip, law_merge_prefix_deletes_both,
    lemma_decoded_short, lemma_merge_one_short, merge_all,
};
use crate::file_meta::FileMeta;
use crate::key::{lex_le, lex_lt};
use crate::keyspace::{inner_end_of, inner_of, same_keyspace, whole_keyspace};
use crate::lists::{any_between, lemma_filtered};
use crate::merge_rule::leaves;
use crate::meta::Meta;
use crate::meta::apply::{deletions, deletions_valid};
use crate::meta::laws::law_properties_of_a_message_are_set;
use crate::meta::merge::stays;
use crate::meta::split::vectors_within;
use crate::pb::TableIdSpan;
use crate::properties::{
    lemma_keys_differ, props_valid, DEL_PREFIXES_KEY, ENCRYPTION_KEY, STORAGE_CLASS_KEY,
};
use crate::vector_laws::{
    file_reaches, holds_file, indexed, indexed_file, keyed, law_indexes_of_tables,
    law_merged_indexes_have_the_files_of_both, law_part_has_indexes_of_its_tables, IndexKey,
};
use crate::vectors::{vectors_of_tables, Vector};

verus! {

/// Where part `i` begins.
pub open spec fn begins_at(m: Meta, split: pb::Split, i: int) -> Seq<u8> {
    if i == 0 {
        m.range.start
    } else {
        split.keys@[i - 1]@
    }
}

/// Where part `i` ends.
pub open spec fn ends_at(m: Meta, split: pb::Split, i: int) -> Seq<u8> {
    if i == split.keys@.len() {
        m.range.end
    } else {
        split.keys@[i]@
    }
}

/// The file may have inner keys from `lower` on and before `upper`.
pub open spec fn reaches_into(fm: FileMeta, lower: Seq<u8>, upper: Seq<u8>) -> bool {
    lex_lt(content(fm.smallest), upper) && lex_le(lower, content(fm.biggest))
}

/// A table of the list is in the span.
pub open spec fn spans_one(ids: Seq<i64>, span: TableIdSpan) -> bool {
    exists|i: int| 0 <= i < ids.len() && span.min <= #[trigger] ids[i] <= span.max
}

/// A span meets the ids if and only if it holds one of them.
pub proof fn lemma_spanned(ids: Seq<i64>, span: TableIdSpan)
    ensures
        (ids.filter(|id: i64| span.min <= id <= span.max).len() > 0) == spans_one(ids, span),
{
    let p = |id: i64| span.min <= id <= span.max;
    let some = ids.filter(p);
    if some.len() > 0 {
        assert(some.contains(some[0]));
        lemma_filtered(ids, p, some[0]);
        let i = choose|i: int| 0 <= i < ids.len() && ids[i] == some[0];
        assert(span.min <= ids[i] <= span.max);
    }
    if spans_one(ids, span) {
        let i = choose|i: int| 0 <= i < ids.len() && span.min <= #[trigger] ids[i] <= span.max;
        assert(ids.contains(ids[i]));
        lemma_filtered(ids, p, ids[i]);
    }
}

/// A part has the range between its split keys, the version that all parts have, and for its
/// first flush the tables of the shard that may have locks. The part that keeps the shard's id
/// goes on with its sequence; the others start from the first one, above all versions so far.
pub proof fn law_part_is_made_for_its_range(
    m: Meta,
    split: pb::Split,
    sequence: u64,
    initial_seq: u64,
    span: TableIdSpan,
    i: int,
    res: Meta,
)
    requires
        m.can_split(split, sequence, split.new_shards@.len() as int),
        0 <= i < split.new_shards@.len(),
        res == m.part(split, sequence, initial_seq, span, i),
    ensures
        res.id == split.new_shards@[i].shard_id,
        res.engine_id == m.engine_id,
        res.ver == m.ver + split.new_shards@.len() - 1,
        res.range.start == begins_at(m, split, i),
        res.range.end == ends_at(m, split, i),
        res.id == m.id ==> res.seq == sequence && res.data_sequence == sequence && res.base_version
            == m.base_version,
        res.id != m.id ==> res.seq == initial_seq && res.data_sequence == initial_seq
            && res.base_version == m.base_version + sequence,
        res.parent is Some,
        res.parent->0 == (Meta {
            files: (*res.parent->0).files,
            vector_indexes: Seq::empty(),
            ..m
        }),
        forall|id: u64| #[trigger]
            (*res.parent->0).files.contains_key(id) <==> m.files.contains_key(id)
                && m.files[id].file_type is Sst && (m.files[id].level == 0 || m.files[id].cf == 1),
        forall|id: u64| #[trigger]
            (*res.parent->0).files.contains_key(id) ==> (*res.parent->0).files[id] == m.files[id],
{
}

/// A part has the properties that it comes with; of two with one key the later counts. Its
/// storage class is that of the shard, where that has one.
pub proof fn law_part_has_its_properties(
    m: Meta,
    split: pb::Split,
    sequence: u64,
    initial_seq: u64,
    span: TableIdSpan,
    i: int,
    res: Meta,
    key: Seq<char>,
)
    requires
        m.can_split(split, sequence, split.new_shards@.len() as int),
        0 <= i < split.new_shards@.len(),
        res == m.part(split, sequence, initial_seq, span, i),
        key != STORAGE_CLASS_KEY@ || !m.props.contains_key(STORAGE_CLASS_KEY@),
    ensures
        ({
            let props = split.new_shards@[i];
            &&& (forall|j: int|
                0 <= j < props.keys@.len() ==> (#[trigger] props.keys@[j])@ != key)
                ==> !res.props.contains_key(key)
            &&& forall|j: int|
                0 <= j < props.keys@.len() && (#[trigger] props.keys@[j])@ == key && (forall|
                    l: int,
                |
                    j < l < props.keys@.len() ==> (#[trigger] props.keys@[l])@ != key)
                    ==> res.props.contains_key(key) && res.props[key] == content(props.values@[j])
        }),
{
    let props = split.new_shards@[i];
    assert(props_valid(props));
    law_properties_of_a_message_are_set(Map::empty(), props, key);
}

/// A part that is no whole keyspace has every file of the shard that reaches into its range,
/// but for columnar files where no table of the part is kept as columns; and no other file.
pub proof fn law_part_has_the_files_of_its_range(
    m: Meta,
    split: pb::Split,
    sequence: u64,
    initial_seq: u64,
    span: TableIdSpan,
    i: int,
    res: Meta,
)
    requires
        0 <= i < split.new_shards@.len(),
        i <= split.keys@.len(),
        res == m.part(split, sequence, initial_seq, span, i),
        !whole_keyspace(begins_at(m, split, i), ends_at(m, split, i)),
    ensures
        ({
            let lower = inner_of(begins_at(m, split, i));
            let upper = inner_end_of(ends_at(m, split, i));
            &&& forall|id: u64| #[trigger]
                res.files.contains_key(id) <==> m.files.contains_key(id) && reaches_into(
                    m.files[id],
                    lower,
                    upper,
                ) && (m.files[id].file_type is Columnar ==> spans_one(m.columnar_table_ids, span))
            &&& forall|id: u64| #[trigger]
                res.files.contains_key(id) ==> res.files[id] == m.files[id]
            &&& forall|id: i64| #[trigger]
                res.columnar_table_ids.contains(id) <==> m.columnar_table_ids.contains(id)
                    && span.min <= id <= span.max
            &&& forall|id: u64| #[trigger]
                res.unconverted_l0s.contains(id) <==> m.unconverted_l0s.contains(id)
                    && m.schema.schema_file_id > 0 && spans_one(m.columnar_table_ids, span)
                    && m.files.contains_key(id) && m.files[id].level == 0 && reaches_into(
                    m.files[id],
                    lower,
                    upper,
                )
            &&& res.max_ts == m.max_ts
            &&& res.schema == m.schema
            &&& res.columnar_l2_snap_version == m.columnar_l2_snap_version
            &&& m.props.contains_key(STORAGE_CLASS_KEY@) ==> res.props.contains_key(
                STORAGE_CLASS_KEY@,
            ) && res.props[STORAGE_CLASS_KEY@] == m.props[STORAGE_CLASS_KEY@]
        }),
{
    lemma_spanned(m.columnar_table_ids, span);
    assert forall|id: i64| #[trigger]
        res.columnar_table_ids.contains(id) <==> m.columnar_table_ids.contains(id) && span.min
            <= id <= span.max by {
        lemma_filtered(m.columnar_table_ids, |id: i64| span.min <= id <= span.max, id);
    }
}

/// A part that is no whole keyspace has the vector indexes of its tables with the files that
/// reach into its range.
pub proof fn law_part_has_the_indexes_of_its_range(
    m: Meta,
    split: pb::Split,
    sequence: u64,
    initial_seq: u64,
    span: TableIdSpan,
    i: int,
    res: Meta,
    k: IndexKey,
    f: pb::VectorIndexFile,
)
    requires
        0 <= i < split.new_shards@.len(),
        i <= split.keys@.len(),
        res == m.part(split, sequence, initial_seq, span, i),
        !whole_keyspace(begins_at(m, split, i), ends_at(m, split, i)),
    ensures
        (exists|j: int|
            0 <= j < res.vector_indexes.len() && keyed(
                #[trigger] res.vector_indexes[j],
                k,
            ) && res.vector_indexes[j].files.contains(f)) <==> m.columnar_table_ids.contains(
            k.table_id,
        ) && span.min <= k.table_id <= span.max && file_reaches(
            f,
            inner_of(begins_at(m, split, i)),
            inner_end_of(ends_at(m, split, i)),
        ) && exists|j: int|
            0 <= j < m.vector_indexes.len() && keyed(
                #[trigger] m.vector_indexes[j],
                k,
            ) && m.vector_indexes[j].files.contains(f),
{
    let p = |id: i64| span.min <= id <= span.max;
    let b = Bound {
        lower: inner_of(begins_at(m, split, i)),
        upper: inner_end_of(ends_at(m, split, i)),
        inclusive: false,
    };
    assert(res.vector_indexes == vectors_within(
        m.vector_indexes,
        m.columnar_table_ids.filter(p),
        b,
    ));
    lemma_filtered(m.columnar_table_ids, p, k.table_id);
    law_part_has_indexes_of_its_tables(
        m.vector_indexes,
        m.columnar_table_ids.filter(p),
        inner_of(begins_at(m, split, i)),
        inner_end_of(ends_at(m, split, i)),
        k,
        f,
    );
}

/// A part that is a whole keyspace starts with nothing.
pub proof fn law_part_of_a_whole_keyspace_is_empty(
    m: Meta,
    split: pb::Split,
    sequence: u64,
    initial_seq: u64,
    span: TableIdSpan,
    i: int,
    res: Meta,
)
    requires
        0 <= i < split.new_shards@.len(),
        i <= split.keys@.len(),
        res == m.part(split, sequence, initial_seq, span, i),
        whole_keyspace(begins_at(m, split, i), ends_at(m, split, i)),
    ensures
        forall|id: u64| !#[trigger] res.files.contains_key(id),
        res.vector_indexes.len() == 0,
        res.columnar_table_ids.len() == 0,
        res.inner_key_off == 4,
{
}

proof fn lemma_merge_all(a: Seq<Seq<u8>>, b: Seq<Seq<u8>>, k: Seq<u8>)
    requires
        all_short(a),
        all_short(b),
    ensures
        covered(merge_all(a, b), k) == (covered(a, k) || covered(b, k)),
        all_short(merge_all(a, b)),
    decreases b.len(),
{
    if b.len() > 0 {
        let init = b.drop_last();
        let n = b.len() - 1;
        assert(b[n] == b.last());
        assert(all_short(init)) by {
            assert forall|i: int| 0 <= i < init.len() implies (#[trigger] init[i]).len()
                < 0x1_0000 by {
                assert(b[i].len() < 0x1_0000);
            }
        }
        lemma_merge_all(a, init, k);
        law_merge_prefix_deletes_both(merge_all(a, init), b.last(), k);
        lemma_merge_one_short(merge_all(a, init), b.last());
        if covered(b, k) {
            let i = choose|i: int| 0 <= i < b.len() && (#[trigger] b[i]).is_prefix_of(k);
            if i < n {
                assert(init[i].is_prefix_of(k));
            }
        }
        if covered(init, k) {
            let i = choose|i: int| 0 <= i < init.len() && (#[trigger] init[i]).is_prefix_of(k);
            assert(b[i].is_prefix_of(k));
        }
    }
}

/// Merged prefixes, written as a property and read again, delete what either list deletes.
pub proof fn lemma_merged_prefixes_are_read_back(a: Seq<Seq<u8>>, b: Seq<Seq<u8>>, k: Seq<u8>)
    requires
        all_short(a),
        all_short(b),
    ensures
        decoded(encoded(merge_all(a, b))) is Some,
        covered(decoded(encoded(merge_all(a, b)))->0, k) == (covered(a, k) || covered(b, k)),
{
    lemma_merge_all(a, b, k);
    law_marshal_roundtrip(merge_all(a, b));
}

/// Reading no prefixes, or well formed ones, gives short ones.
proof fn lemma_deletions_short(props: Map<Seq<char>, Seq<u8>>)
    requires
        deletions_valid(props),
    ensures
        all_short(deletions(props)),
{
    if props.contains_key(DEL_PREFIXES_KEY@) {
        lemma_decoded_short(props[DEL_PREFIXES_KEY@]);
    }
}

/// A columnar or vector file stays where it may have keys of a table that is kept as columns;
/// other files stay.
pub open spec fn stays_with(fm: FileMeta, ids: Seq<i64>) -> bool {
    fm.file_type is Columnar || fm.file_type is VectorIndex ==> spans_one(ids, fm.table_ids)
}

/// A merged shard of one keyspace has the files of both, the source's for one id: but for
/// columnar and vector files of tables that are not kept as columns, and no others.
pub proof fn law_merged_metadata_has_the_files_of_both(
    m: Meta,
    source: Meta,
    sequence: u64,
    ids: Seq<i64>,
    res: Meta,
)
    requires
        m.can_merge(source, sequence),
        res == m.merge_committed(source, sequence, ids),
        same_keyspace(source.range.start, m.range.start),
    ensures
        forall|id: u64| #[trigger]
            res.files.contains_key(id) <==> if source.files.contains_key(id) {
                stays_with(source.files[id], ids)
            } else {
                m.files.contains_key(id) && stays_with(m.files[id], ids)
            },
        forall|id: u64| #[trigger]
            res.files.contains_key(id) ==> res.files[id] == if source.files.contains_key(id) {
                source.files[id]
            } else {
                m.files[id]
            },
        res.id == m.id,
        res.seq == sequence,
        res.data_sequence == sequence,
        res.ver > m.ver && res.ver > source.ver && (res.ver == m.ver + 1 || res.ver == source.ver
            + 1),
        res.max_ts >= m.max_ts && res.max_ts >= source.max_ts && (res.max_ts == m.max_ts
            || res.max_ts == source.max_ts),
        m.range.end == source.range.start ==> res.range.start == m.range.start && res.range.end
            == source.range.end,
        m.range.end != source.range.start ==> res.range.start == source.range.start
            && res.range.end == m.range.end,
        res.columnar_table_ids == ids,
        ids.len() > 0 ==> res.unconverted_l0s == m.unconverted_l0s,
        ids.len() == 0 ==> forall|id: u64| !#[trigger] res.unconverted_l0s.contains(id),
        res.columnar_l2_snap_version.version >= m.columnar_l2_snap_version.version
            && res.columnar_l2_snap_version.version >= source.columnar_l2_snap_version.version,
        res.inner_key_off == m.inner_key_off,
        res.parent is Some,
        forall|id: u64| #[trigger]
            (*res.parent->0).files.contains_key(id) <==> m.files.contains_key(id)
                || source.files.contains_key(id),
        forall|key: Seq<char>|
            key != DEL_PREFIXES_KEY@ ==> #[trigger] res.props.contains_key(key)
                == m.props.contains_key(key) && (m.props.contains_key(key) ==> res.props[key]
                == m.props[key]),
{
    assert forall|fm: FileMeta| #[trigger] stays_with(fm, ids) == stays(
        fm,
        ids,
    ) by {
        lemma_stays(fm, ids);
    }
    assert forall|id: u64| #[trigger]
        res.files.contains_key(id) <==> if source.files.contains_key(id) {
            stays_with(source.files[id], ids)
        } else {
            m.files.contains_key(id) && stays_with(m.files[id], ids)
        } by {
        lemma_stays(source.files[id], ids);
        lemma_stays(m.files[id], ids);
    }
}

proof fn lemma_stays(fm: FileMeta, ids: Seq<i64>)
    ensures
        stays_with(fm, ids) == stays(fm, ids),
{
    let span = fm.table_ids;
    if spans_one(ids, span) {
        let i = choose|i: int| 0 <= i < ids.len() && span.min <= #[trigger] ids[i] <= span.max;
        assert(any_between(ids, span.min, span.max));
    }
    if any_between(ids, span.min, span.max) {
        let i = choose|i: int| 0 <= i < ids.len() && span.min <= #[trigger] ids[i] <= span.max;
        assert(spans_one(ids, span));
    }
}

/// The vector indexes of a merged shard of one keyspace are those of both that are of the
/// tables that are kept as columns, with the files of both.
pub proof fn law_merged_metadata_has_the_indexes_of_both(
    m: Meta,
    source: Meta,
    sequence: u64,
    ids: Seq<i64>,
    res: Meta,
    k: IndexKey,
    id: u64,
)
    requires
        res == m.merge_committed(source, sequence, ids),
        same_keyspace(source.range.start, m.range.start),
    ensures
        indexed_file(res.vector_indexes, k, id) <==> ids.contains(k.table_id) && (indexed_file(
            m.vector_indexes,
            k,
            id,
        ) || indexed_file(source.vector_indexes, k, id)),
        indexed(res.vector_indexes, k) <==> ids.contains(k.table_id) && (indexed(
            m.vector_indexes,
            k,
        ) || indexed(source.vector_indexes, k)),
{
    let both = m.vectors_for_merge(source);
    law_merged_indexes_have_the_files_of_both(m.vector_indexes, source.vector_indexes, k, id);
    lemma_indexes_of_tables(both, ids, k, id);
}

/// Keeping the indexes of some tables keeps their files.
pub proof fn lemma_indexes_of_tables(s: Seq<Vector>, ids: Seq<i64>, k: IndexKey, id: u64)
    ensures
        indexed_file(vectors_of_tables(s, ids), k, id) == (ids.contains(k.table_id)
            && indexed_file(s, k, id)),
        indexed(vectors_of_tables(s, ids), k) == (ids.contains(k.table_id) && indexed(s, k)),
{
    let some = vectors_of_tables(s, ids);
    assert forall|v: Vector| #[trigger]
        some.contains(v) <==> s.contains(v) && ids.contains(v.table_id) by {
        law_indexes_of_tables(s, ids, v);
    }
    if indexed_file(some, k, id) {
        let i = choose|i: int|
            0 <= i < some.len() && keyed(#[trigger] some[i], k)
                && holds_file(some[i], id);
        assert(some.contains(some[i]));
        let j = choose|j: int| 0 <= j < s.len() && s[j] == some[i];
        assert(keyed(s[j], k));
    }
    if indexed_file(s, k, id) && ids.contains(k.table_id) {
        let i = choose|i: int|
            0 <= i < s.len() && keyed(#[trigger] s[i], k)
                && holds_file(s[i], id);
        assert(s.contains(s[i]));
        assert(some.contains(s[i]));
        let j = choose|j: int| 0 <= j < some.len() && some[j] == s[i];
        assert(keyed(some[j], k));
    }
    if indexed(some, k) {
        let i = choose|i: int|
            0 <= i < some.len() && keyed(#[trigger] some[i], k);
        assert(some.contains(some[i]));
        let j = choose|j: int| 0 <= j < s.len() && s[j] == some[i];
        assert(keyed(s[j], k));
    }
    if indexed(s, k) && ids.contains(k.table_id) {
        let i = choose|i: int|
            0 <= i < s.len() && keyed(#[trigger] s[i], k);
        assert(s.contains(s[i]));
        assert(some.contains(s[i]));
        let j = choose|j: int| 0 <= j < some.len() && some[j] == s[i];
        assert(keyed(some[j], k));
    }
}

/// A merged shard of one keyspace is to delete the keys that either of the two is to delete,
/// and no others.
pub proof fn law_merged_metadata_deletes_for_both(
    m: Meta,
    source: Meta,
    sequence: u64,
    ids: Seq<i64>,
    res: Meta,
    k: Seq<u8>,
)
    requires
        m.can_merge(source, sequence),
        res == m.merge_committed(source, sequence, ids),
        same_keyspace(source.range.start, m.range.start),
    ensures
        deletions_valid(res.props),
        covered(deletions(res.props), k) <==> covered(deletions(m.props), k) || covered(
            deletions(source.props),
            k,
        ),
{
    lemma_deletions_short(m.props);
    lemma_deletions_short(source.props);
    lemma_merged_prefixes_are_read_back(deletions(source.props), deletions(m.props), k);
    if !m.props.contains_key(DEL_PREFIXES_KEY@) && !source.props.contains_key(DEL_PREFIXES_KEY@) {
        assert(!covered(deletions(res.props), k));
    }
}

/// Where the source is of a keyspace that is given up, the merged shard has the target's files
/// of rows, and no file of the source.
pub proof fn law_given_up_source_leaves_no_file(
    m: Meta,
    source: Meta,
    sequence: u64,
    ids: Seq<i64>,
    res: Meta,
)
    requires
        res == m.merge_committed(source, sequence, ids),
        leaves(source.range.start, m.range.start),
        !leaves(m.range.start, source.range.start),
    ensures
        forall|id: u64| #[trigger]
            res.files.contains_key(id) <==> m.files.contains_key(id) && stays_with(
                m.files[id],
                ids,
            ),
        forall|id: u64| #[trigger] res.files.contains_key(id) ==> res.files[id] == m.files[id],
        !res.props.contains_key(ENCRYPTION_KEY@),
        forall|key: Seq<char>|
            key != ENCRYPTION_KEY@ ==> #[trigger] res.props.contains_key(key)
                == m.props.contains_key(key) && (m.props.contains_key(key) ==> res.props[key]
                == m.props[key]),
        res.schema == m.schema,
        res.inner_key_off == m.inner_key_off,
{
    assert forall|id: u64| #[trigger]
        res.files.contains_key(id) <==> m.files.contains_key(id) && stays_with(m.files[id], ids) by {
        lemma_stays(m.files[id], ids);
    }
}

/// Where the target is of a keyspace that is given up, the merged shard has the source's files
/// alone, its storage class, and the prefixes that the source is to delete.
pub proof fn law_given_up_target_leaves_no_file(
    m: Meta,
    source: Meta,
    sequence: u64,
    ids: Seq<i64>,
    res: Meta,
    k: Seq<u8>,
)
    requires
        m.can_merge(source, sequence),
        res == m.merge_committed(source, sequence, ids),
        !leaves(source.range.start, m.range.start),
        leaves(m.range.start, source.range.start),
    ensures
        forall|id: u64| #[trigger]
            res.files.contains_key(id) <==> source.files.contains_key(id) && stays_with(
                source.files[id],
                ids,
            ),
        forall|id: u64| #[trigger] res.files.contains_key(id) ==> res.files[id] == source.files[id],
        !res.props.contains_key(ENCRYPTION_KEY@),
        res.props.contains_key(STORAGE_CLASS_KEY@) == source.props.contains_key(STORAGE_CLASS_KEY@),
        source.props.contains_key(STORAGE_CLASS_KEY@) ==> res.props[STORAGE_CLASS_KEY@]
            == source.props[STORAGE_CLASS_KEY@],
        covered(deletions(res.props), k) <==> covered(deletions(source.props), k),
        res.inner_key_off == source.inner_key_off,
{
    lemma_keys_differ();
    assert forall|id: u64| #[trigger]
        res.files.contains_key(id) <==> source.files.contains_key(id) && stays_with(
            source.files[id],
            ids,
        ) by {
        lemma_stays(source.files[id], ids);
    }
    lemma_deletions_short(source.props);
    lemma_merged_prefixes_are_read_back(deletions(source.props), Seq::empty(), k);
    assert(!covered(Seq::empty(), k));
    if !source.props.contains_key(DEL_PREFIXES_KEY@) {
        assert(!covered(deletions(res.props), k));
    }
}

} // verus!
