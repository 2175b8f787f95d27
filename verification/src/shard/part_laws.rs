//! What the parts of a split shard and a merged shard hold and are to do, told by the shards
//! that they were made from.
use bytes::Bytes;
use vstd::prelude::*;

use crate::pb;
use crate::bound::BoundedDataSet;
use crate::buf::content;
use crate::del_prefixes::{
    all_short, covered, decoded, encoded, law_build_split_deletes_the_same, law_marshal_roundtrip,
    lemma_decoded_short, lemma_split_short, merge_all, property_prefixes,
};
use crate::key::{lex_le, lex_lt};
use crate::keyspace::{inner_end_of, inner_of, same_keyspace, whole_keyspace};
use crate::lists::{lemma_filtered, lemma_joined};
use crate::merge_rule::law_same_keyspace_keeps_data;
use crate::meta::part_laws::{
    lemma_indexes_of_tables, lemma_merged_prefixes_are_read_back, lemma_spanned, spans_one,
};
use crate::pb::{StorageClassSpec, TableIdSpan};
use crate::properties::{
    first_value, lemma_keys_differ, opt_value, DEL_PREFIXES_KEY, ENCRYPTION_KEY, STORAGE_CLASS_KEY,
};
use crate::shard::data::{ids_of_l0s, BlobTable, ColumnarFile, L0Table, Mem};
use crate::shard::levels::SsTable;
use crate::shard::merge::{can_commit, is_merged, vectors_joined, MergeSource};
use crate::shard::ops::Shard;
use crate::shard::split::{is_part, part_deletion};
use crate::vector_laws::{
    indexed, indexed_file, law_merged_indexes_have_the_files_of_both, IndexKey,
};
use crate::vectors::vectors_of;

verus! {

/// Where part `i` begins.
pub open spec fn part_begins_at(shard: Shard, split: pb::Split, i: int) -> Seq<u8> {
    if i == 0 {
        shard.range@.start
    } else {
        split.keys@[i - 1]@
    }
}

/// Where part `i` ends.
pub open spec fn part_ends_at(shard: Shard, split: pb::Split, i: int) -> Seq<u8> {
    if i == split.keys@.len() {
        shard.range@.end
    } else {
        split.keys@[i]@
    }
}

/// Keys from `smallest` to `biggest` may lie from `lower` on and before `upper`.
pub open spec fn keys_reach(
    smallest: Bytes,
    biggest: Bytes,
    lower: Seq<u8>,
    upper: Seq<u8>,
) -> bool {
    lex_lt(content(smallest), upper) && lex_le(lower, content(biggest))
}

/// The memory table has a key from `lower` on and before `upper`.
pub open spec fn mem_reaches(m: Mem, lower: Seq<u8>, upper: Seq<u8>) -> bool {
    exists|i: int|
        0 <= i < m.keys.len() && lex_le(lower, content(#[trigger] m.keys[i])) && lex_lt(
            content(m.keys[i]),
            upper,
        )
}

/// A table of level 0 in the list has the id.
pub open spec fn l0_named(s: Seq<L0Table>, id: u64) -> bool {
    exists|i: int| 0 <= i < s.len() && (#[trigger] s[i]).id == id
}

proof fn lemma_l0_ids(s: Seq<L0Table>, id: u64)
    ensures
        ids_of_l0s(s).contains(id) == l0_named(s, id),
{
    let ids = ids_of_l0s(s);
    if ids.contains(id) {
        let i = choose|i: int| 0 <= i < ids.len() && ids[i] == id;
        assert(s[i].id == id);
    }
    if l0_named(s, id) {
        let i = choose|i: int| 0 <= i < s.len() && (#[trigger] s[i]).id == id;
        assert(ids[i] == id);
    }
}

/// A part has the range between its split keys and the version that all parts have. The part
/// that keeps the shard's id goes on with its sequence and is active if that was; the others
/// start above all versions so far.
pub proof fn law_part_of_a_shard_is_made_for_its_range(
    shard: Shard,
    split: pb::Split,
    sequence: u64,
    initial_seq: u64,
    span: TableIdSpan,
    schedule_at: u64,
    class: StorageClassSpec,
    i: int,
    part: Shard,
)
    requires
        0 <= i < split.new_shards@.len(),
        i <= split.keys@.len(),
        is_part(shard, split, sequence, initial_seq, span, schedule_at, class, i, part),
    ensures
        part.id == split.new_shards@[i].shard_id,
        part.ver == shard.ver + split.new_shards@.len() - 1,
        part.range@.start == part_begins_at(shard, split, i),
        part.range@.end == part_ends_at(shard, split, i),
        part.data@.range == part.range@,
        part.parent_id == shard.id,
        !part.initial_flushed,
        part.id == shard.id ==> part.active == shard.active && part.base_version
            == shard.base_version && part.meta_seq == sequence && part.write_sequence == sequence,
        part.id != shard.id ==> !part.active && part.base_version == shard.base_version + sequence
            && part.meta_seq == initial_seq && part.write_sequence == initial_seq,
        part.encryption_key == first_value(ENCRYPTION_KEY@, split.new_shards@[i]),
{
}

/// A part that is no whole keyspace has the tables of the shard, of each kind and level, that
/// may have keys of its range, and no others. It has an empty memory table to write to, and
/// behind it those of the shard that have keys of its range or were switched by force.
pub proof fn law_part_of_a_shard_has_its_tables(
    shard: Shard,
    split: pb::Split,
    sequence: u64,
    initial_seq: u64,
    span: TableIdSpan,
    schedule_at: u64,
    class: StorageClassSpec,
    i: int,
    part: Shard,
)
    requires
        0 <= i < split.new_shards@.len(),
        i <= split.keys@.len(),
        is_part(shard, split, sequence, initial_seq, span, schedule_at, class, i, part),
        !whole_keyspace(part_begins_at(shard, split, i), part_ends_at(shard, split, i)),
    ensures
        ({
            let lower = inner_of(part_begins_at(shard, split, i));
            let upper = inner_end_of(part_ends_at(shard, split, i));
            let from = shard.data@;
            let got = part.data@;
            &&& forall|t: L0Table| #[trigger]
                got.l0_tbls.contains(t) <==> from.l0_tbls.contains(t) && keys_reach(
                    t.smallest,
                    t.biggest,
                    lower,
                    upper,
                )
            &&& forall|t: BlobTable| #[trigger]
                got.blob_tbls.contains(t) <==> from.blob_tbls.contains(t) && keys_reach(
                    t.smallest,
                    t.biggest,
                    lower,
                    upper,
                )
            &&& got.cfs.len() == from.cfs.len()
            &&& forall|c: int, l: int, t: SsTable|
                0 <= c < from.cfs.len() && 0 <= l < from.cfs[c].len() ==> (
                #[trigger] got.cfs[c][l].tables.contains(t) <==> from.cfs[c][l].tables.contains(t)
                    && keys_reach(t.smallest, t.biggest, lower, upper))
            &&& got.col_levels.levels.len() == from.col_levels.levels.len()
            &&& forall|l: int, f: ColumnarFile|
                0 <= l < from.col_levels.levels.len() ==> (
                #[trigger] got.col_levels.levels[l].contains(f)
                    <==> from.col_levels.levels[l].contains(f) && keys_reach(
                    f.smallest,
                    f.biggest,
                    lower,
                    upper,
                ) && spans_one(from.columnar_table_ids, span))
            &&& forall|t: L0Table| #[trigger]
                got.col_levels.unconverted_l0s.contains(t) <==> from.l0_tbls.contains(t) && l0_named(
                    from.col_levels.unconverted_l0s,
                    t.id,
                ) && keys_reach(t.smallest, t.biggest, lower, upper) && spans_one(
                    from.columnar_table_ids,
                    span,
                )
            &&& got.mem_tbls.len() > 0
            &&& got.mem_tbls[0] == Mem::empty()
            &&& forall|m: Mem| #[trigger]
                got.mem_tbls.contains(m) <==> m == Mem::empty() || from.mem_tbls.contains(m) && (
                m.force_switch || mem_reaches(m, lower, upper))
            &&& got.unloaded_tbls == from.unloaded_tbls
            &&& got.schema_file == from.schema_file
            &&& got.schema_version == from.schema_version
            &&& forall|id: i64| #[trigger]
                got.columnar_table_ids.contains(id) <==> from.columnar_table_ids.contains(id)
                    && span.min <= id <= span.max
        }),
{
    let from = shard.data@;
    let got = part.data@;
    let b = part.range@.inner_bound();
    let lower = inner_of(part_begins_at(shard, split, i));
    let upper = inner_end_of(part_ends_at(shard, split, i));
    let keep_id = |id: i64| span.min <= id <= span.max;
    let columnar = from.columnar_table_ids.filter(keep_id).len() > 0;
    lemma_spanned(from.columnar_table_ids, span);
    assert forall|t: L0Table| #[trigger] got.l0_tbls.contains(t) <==> from.l0_tbls.contains(t)
        && keys_reach(t.smallest, t.biggest, lower, upper) by {
        lemma_filtered(from.l0_tbls, |t: L0Table| b.overlaps(t.bound()), t);
    }
    assert forall|t: BlobTable| #[trigger] got.blob_tbls.contains(t) <==> from.blob_tbls.contains(t)
        && keys_reach(t.smallest, t.biggest, lower, upper) by {
        lemma_filtered(from.blob_tbls, |t: BlobTable| b.overlaps(t.bound()), t);
    }
    assert forall|c: int, l: int, t: SsTable|
        0 <= c < from.cfs.len() && 0 <= l < from.cfs[c].len() implies (
    #[trigger] got.cfs[c][l].tables.contains(t) <==> from.cfs[c][l].tables.contains(t)
        && keys_reach(t.smallest, t.biggest, lower, upper)) by {
        lemma_filtered(from.cfs[c][l].tables, |t: SsTable| b.overlaps(t.bound()), t);
    }
    assert forall|l: int, f: ColumnarFile| 0 <= l < from.col_levels.levels.len() implies (
    #[trigger] got.col_levels.levels[l].contains(f) <==> from.col_levels.levels[l].contains(f)
        && keys_reach(f.smallest, f.biggest, lower, upper) && spans_one(
        from.columnar_table_ids,
        span,
    )) by {
        lemma_filtered(
            from.col_levels.levels[l],
            |f: ColumnarFile| b.overlaps(f.bound()) && columnar,
            f,
        );
    }
    assert forall|t: L0Table| #[trigger] got.col_levels.unconverted_l0s.contains(
        t,
    ) <==> from.l0_tbls.contains(t) && l0_named(from.col_levels.unconverted_l0s, t.id)
        && keys_reach(t.smallest, t.biggest, lower, upper) && spans_one(
        from.columnar_table_ids,
        span,
    ) by {
        lemma_filtered(
            from.l0_tbls,
            |t: L0Table|
                b.overlaps(t.bound()) && ids_of_l0s(from.col_levels.unconverted_l0s).contains(t.id)
                    && columnar,
            t,
        );
        lemma_l0_ids(from.col_levels.unconverted_l0s, t.id);
    }
    let keep_mem = |m: Mem| m.force_switch || m.in_bound(b);
    assert forall|m: Mem| #[trigger] got.mem_tbls.contains(m) <==> m == Mem::empty()
        || from.mem_tbls.contains(m) && (m.force_switch || mem_reaches(m, lower, upper)) by {
        lemma_joined(seq![Mem::empty()], from.mem_tbls.filter(keep_mem), m);
        lemma_filtered(from.mem_tbls, keep_mem, m);
        if seq![Mem::empty()].contains(m) {
            assert(m == Mem::empty());
        }
        assert(seq![Mem::empty()][0] == Mem::empty());
        assert(seq![Mem::empty()].contains(Mem::empty()));
        if m.in_bound(b) {
            let j = choose|j: int| 0 <= j < m.keys.len() && b.has(content(#[trigger] m.keys[j]));
            assert(mem_reaches(m, lower, upper));
        }
        if mem_reaches(m, lower, upper) {
            let j = choose|j: int|
                0 <= j < m.keys.len() && lex_le(lower, content(#[trigger] m.keys[j])) && lex_lt(
                    content(m.keys[j]),
                    upper,
                );
            assert(m.in_bound(b));
        }
    }
    assert forall|id: i64| #[trigger] got.columnar_table_ids.contains(
        id,
    ) <==> from.columnar_table_ids.contains(id) && span.min <= id <= span.max by {
        lemma_filtered(from.columnar_table_ids, keep_id, id);
    }
}

/// A part that is a whole keyspace starts with nothing.
pub proof fn law_part_of_a_shard_that_is_a_keyspace_is_empty(
    shard: Shard,
    split: pb::Split,
    sequence: u64,
    initial_seq: u64,
    span: TableIdSpan,
    schedule_at: u64,
    class: StorageClassSpec,
    i: int,
    part: Shard,
)
    requires
        0 <= i < split.new_shards@.len(),
        i <= split.keys@.len(),
        is_part(shard, split, sequence, initial_seq, span, schedule_at, class, i, part),
        whole_keyspace(part_begins_at(shard, split, i), part_ends_at(shard, split, i)),
    ensures
        part.data@.l0_tbls.len() == 0,
        part.data@.blob_tbls.len() == 0,
        part.data@.vector_indexes.len() == 0,
        part.data@.columnar_table_ids.len() == 0,
        part.data@.inner_key_off == 4,
{
}

/// A part is to delete the keys of its range that the shard is to delete, and keeps the
/// storage class of the shard.
pub proof fn law_part_of_a_shard_deletes_what_is_to_be_deleted(
    shard: Shard,
    split: pb::Split,
    sequence: u64,
    initial_seq: u64,
    span: TableIdSpan,
    schedule_at: u64,
    class: StorageClassSpec,
    i: int,
    part: Shard,
    k: Seq<u8>,
)
    requires
        0 <= i < split.new_shards@.len(),
        i <= split.keys@.len(),
        is_part(shard, split, sequence, initial_seq, span, schedule_at, class, i, part),
        all_short(shard.pending_ops@.deletion.prefixes),
        lex_le(part_begins_at(shard, split, i), k),
        lex_lt(k, part_ends_at(shard, split, i)),
    ensures
        covered(shard.pending_ops@.deletion.prefixes, k) ==> covered(
            part.pending_ops@.deletion.prefixes,
            k,
        ) && part.pending_ops@.deletion.schedule_at == schedule_at,
        first_value(DEL_PREFIXES_KEY@, split.new_shards@[i]) is None ==> (covered(
            part.pending_ops@.deletion.prefixes,
            k,
        ) ==> covered(shard.pending_ops@.deletion.prefixes, k)),
        shard.properties@.contains_key(STORAGE_CLASS_KEY@) ==> part.properties@.contains_key(
            STORAGE_CLASS_KEY@,
        ) && part.properties@[STORAGE_CLASS_KEY@] == shard.properties@[STORAGE_CLASS_KEY@]
            && part.pending_ops@.storage_class == shard.pending_ops@.storage_class,
{
    let prefixes = shard.pending_ops@.deletion.prefixes;
    let start = part_begins_at(shard, split, i);
    let end = part_ends_at(shard, split, i);
    let mine = part_deletion(shard, split, i);
    law_build_split_deletes_the_same(prefixes, start, end, k);
    lemma_split_short(prefixes, start, end);
    law_marshal_roundtrip(mine);
    lemma_keys_differ();
    if mine.len() > 0 {
        assert(encoded(mine).len() > 0) by {
            if encoded(mine).len() == 0 {
                assert(decoded(encoded(mine))->0.len() == 0);
            }
        }
    }
}

/// A part of a shard that has nothing to delete is to delete what the properties say that it
/// comes with, and nothing where they say nothing.
pub proof fn law_part_deletes_what_its_properties_say(
    shard: Shard,
    split: pb::Split,
    sequence: u64,
    initial_seq: u64,
    span: TableIdSpan,
    schedule_at: u64,
    class: StorageClassSpec,
    i: int,
    part: Shard,
)
    requires
        0 <= i < split.new_shards@.len(),
        i <= split.keys@.len(),
        is_part(shard, split, sequence, initial_seq, span, schedule_at, class, i, part),
        shard.pending_ops@.deletion.prefixes.len() == 0,
    ensures
        first_value(DEL_PREFIXES_KEY@, split.new_shards@[i]) matches Some(v) ==> {
            &&& part.pending_ops@.deletion.prefixes == decoded(content(v))->0
            &&& part.pending_ops@.deletion.schedule_at == schedule_at
        },
        first_value(DEL_PREFIXES_KEY@, split.new_shards@[i]) is None
            ==> part.pending_ops@.deletion.prefixes.len() == 0,
{
    let prefixes = shard.pending_ops@.deletion.prefixes;
    let start = part_begins_at(shard, split, i);
    let end = part_ends_at(shard, split, i);
    let keep = |p: Seq<u8>| (lex_le(start, p) && lex_lt(p, end)) || p.is_prefix_of(start);
    prefixes.lemma_filter_len(keep);
    assert(part_deletion(shard, split, i).len() == 0);
}

/// A merged shard of one keyspace is to delete the keys that either of the two is to delete,
/// and no others; it keeps the key of its files, and each version that is written to it is
/// above those of both.
pub proof fn law_merged_shard_deletes_for_both(
    target: Shard,
    source: MergeSource,
    sequence: u64,
    ids: Seq<i64>,
    schedule_at: u64,
    class: StorageClassSpec,
    res: Shard,
    k: Seq<u8>,
)
    requires
        can_commit(target, source, sequence),
        is_merged(target, source, sequence, ids, schedule_at, class, res),
        same_keyspace(content(source.snapshot.outer_start), target.range@.start),
    ensures
        res.ver > target.ver && res.ver > source.ver && (res.ver == target.ver + 1 || res.ver
            == source.ver + 1),
        res.base_version + sequence >= target.base_version + sequence,
        res.base_version + sequence >= source.snapshot.base_version + source.sequence,
        res.parent_id == target.id,
        !res.initial_flushed,
        res.meta_seq == sequence && res.write_sequence == sequence,
        forall|key: Seq<char>|
            key != DEL_PREFIXES_KEY@ ==> #[trigger] res.properties@.contains_key(key)
                == target.properties@.contains_key(key) && (target.properties@.contains_key(key)
                ==> res.properties@[key] == target.properties@[key]),
        ({
            let own = target.properties@.contains_key(DEL_PREFIXES_KEY@) && covered(
                decoded(target.properties@[DEL_PREFIXES_KEY@])->0,
                k,
            );
            let other = opt_value(DEL_PREFIXES_KEY@, source.snapshot.properties);
            let others = other is Some && covered(decoded(content(other->0))->0, k);
            let both = res.properties@.contains_key(DEL_PREFIXES_KEY@) && covered(
                decoded(res.properties@[DEL_PREFIXES_KEY@])->0,
                k,
            );
            &&& both <==> own || others
            &&& covered(res.pending_ops@.deletion.prefixes, k) <==> own || others
        }),
{
    law_same_keyspace_keeps_data(content(source.snapshot.outer_start), target.range@.start);
    let other = opt_value(DEL_PREFIXES_KEY@, source.snapshot.properties);
    let a = property_prefixes(other);
    let b = if target.properties@.contains_key(DEL_PREFIXES_KEY@) {
        decoded(target.properties@[DEL_PREFIXES_KEY@])->0
    } else {
        Seq::empty()
    };
    if target.properties@.contains_key(DEL_PREFIXES_KEY@) {
        lemma_decoded_short(target.properties@[DEL_PREFIXES_KEY@]);
    }
    if other is Some {
        lemma_decoded_short(content(other->0));
    }
    assert(all_short(a));
    assert(all_short(b));
    lemma_merged_prefixes_are_read_back(a, b, k);
    let e = encoded(merge_all(a, b));
    if e.len() == 0 {
        assert(decoded(e)->0.len() == 0);
        assert(!covered(decoded(e)->0, k));
    }
    assert(!covered(Seq::empty(), k));
}

/// The vector indexes of a merged shard of one keyspace are those of both that are of the
/// tables that are kept as columns, with the files of both.
pub proof fn law_merged_shard_has_the_indexes_of_both(
    target: Shard,
    source: MergeSource,
    sequence: u64,
    ids: Seq<i64>,
    schedule_at: u64,
    class: StorageClassSpec,
    res: Shard,
    k: IndexKey,
    id: u64,
)
    requires
        can_commit(target, source, sequence),
        is_merged(target, source, sequence, ids, schedule_at, class, res),
        same_keyspace(content(source.snapshot.outer_start), target.range@.start),
    ensures
        ({
            let more = vectors_of(source.snapshot.vector_indexes@);
            &&& indexed_file(res.data@.vector_indexes, k, id) <==> ids.contains(k.table_id) && (
            indexed_file(target.data@.vector_indexes, k, id) || indexed_file(more, k, id))
            &&& indexed(res.data@.vector_indexes, k) <==> ids.contains(k.table_id) && (indexed(
                target.data@.vector_indexes,
                k,
            ) || indexed(more, k))
        }),
{
    law_same_keyspace_keeps_data(content(source.snapshot.outer_start), target.range@.start);
    let more = vectors_of(source.snapshot.vector_indexes@);
    let own = target.data@.vector_indexes;
    law_merged_indexes_have_the_files_of_both(own, more, k, id);
    lemma_indexes_of_tables(vectors_joined(own, more), ids, k, id);
}

} // verus!
