//! What becomes of a shard that is merged, made of a snapshot or renewed.
use bytes::Bytes;
use vstd::prelude::*;

use crate::buf::content;
use crate::del_prefixes::{delete_bound, Deletion};
use crate::key::{lex_le, lex_lt};
use crate::keyspace::{inner_end_of, inner_of, keyspace_prefix_of, same_keyspace};
use crate::merge_rule::leaves;
use crate::pb;
use crate::pb::StorageClassSpec;
use crate::properties::{
    opt_value, DEL_PREFIXES_KEY, ENCRYPTION_KEY, STORAGE_CLASS_KEY, TRIM_OVER_BOUND,
};
use crate::read::columnar::blocks_size_from;
use crate::shard::data::{Data, MemTable};
use crate::shard::ingest::{data_of, SnapshotTables};
use crate::shard::levels::{range_bound, walk_range, walk_ranges, BlockIndex, Level, SsTable};
use crate::shard::merge::{
    classes_conflict, is_next_version, same_key, target_pending, target_props, MergeSource,
};
use crate::shard::ops::Shard;
use crate::shard::priority::can_destroy_range;
use crate::shard::size_laws::{places, total};

verus! {

/// A shard has nothing to keep if and only if there is no data in its files and its memory
/// tables, or a prefix that is to be deleted covers its whole keyspace: it is no longer than
/// what all keys of the keyspace begin with, or begins that of the shard.
pub proof fn law_shard_with_nothing_to_keep(s: Shard)
    ensures
        s.as_good_as_empty() <==> {
            ||| s.estimated_size == 0 && forall|i: int|
                0 <= i < s.data@.mem_tbls.len() ==> (#[trigger] s.data@.mem_tbls[i]).keys.len()
                    == 0
            ||| exists|i: int|
                0 <= i < s.pending_ops@.deletion.prefixes.len() && ((
                #[trigger] s.pending_ops@.deletion.prefixes[i]).len()
                    <= s.pending_ops@.deletion.keyspace_prefix_len
                    || s.pending_ops@.deletion.prefixes[i].is_prefix_of(
                    match keyspace_prefix_of(s.range@.start) {
                        Some(p) => p,
                        None => Seq::empty(),
                    },
                ))
        },
{
}

/// Whether storage classes and keys stand in the way of a merge does not depend on which shard
/// is merged into which. Shards of which no class is asked for do not conflict; nor do those
/// of one table of a keyspace with the same class.
pub proof fn law_conflicts_are_mutual(
    same: bool,
    a: StorageClassSpec,
    b: StorageClassSpec,
    same_table: bool,
    x: Option<Bytes>,
    y: Option<Bytes>,
)
    ensures
        classes_conflict(same, a, b, same_table) == classes_conflict(same, b, a, same_table),
        !a.specified && !b.specified ==> !classes_conflict(same, a, b, same_table),
        same && same_table && a == b ==> !classes_conflict(same, a, b, same_table),
        (a.specified || b.specified) && !same ==> classes_conflict(same, a, b, same_table),
        (a.specified || b.specified) && a != b ==> classes_conflict(same, a, b, same_table),
        (a.specified || b.specified) && !same_table ==> classes_conflict(same, a, b, same_table),
        same_key(x, y) == same_key(y, x),
        same_key(x, x),
        x is Some && y is None ==> !same_key(x, y),
        x is Some && y is Some ==> (same_key(x, y) <==> content(x->0) == content(y->0)),
{
}

/// A target that stays in its keyspace keeps what it is asked to do and its properties. One
/// that leaves it takes over the storage class of the source, and has nothing to delete. It
/// keeps its encryption key only where the source is of the same keyspace.
pub proof fn law_target_of_a_merge(
    target: Shard,
    source: MergeSource,
    schedule_at: u64,
    class: StorageClassSpec,
    key: Seq<char>,
)
    ensures
        ({
            let start = content(source.snapshot.outer_start);
            let pending = target_pending(target, source, schedule_at, class);
            let props = target_props(target, source);
            &&& !leaves(target.range@.start, start) ==> pending == target.pending_ops@
            &&& leaves(target.range@.start, start) ==> {
                &&& pending.deletion.prefixes.len() == 0
                &&& pending.storage_class == class
                &&& pending.truncate_ts == target.pending_ops@.truncate_ts
                &&& pending.trim_over_bound == target.pending_ops@.trim_over_bound
                &&& pending.major == target.pending_ops@.major
            }
            &&& !leaves(target.range@.start, start) && same_keyspace(start, target.range@.start)
                ==> props == target.properties@
            &&& key != ENCRYPTION_KEY@ && key != DEL_PREFIXES_KEY@ && key != STORAGE_CLASS_KEY@
                ==> (props.contains_key(key) <==> target.properties@.contains_key(key)) && (
            props.contains_key(key) ==> props[key] == target.properties@[key])
            &&& leaves(target.range@.start, start) ==> {
                &&& props.contains_key(DEL_PREFIXES_KEY@)
                &&& props[DEL_PREFIXES_KEY@].len() == 0 || DEL_PREFIXES_KEY@ == STORAGE_CLASS_KEY@
                &&& props.contains_key(STORAGE_CLASS_KEY@)
                &&& props[STORAGE_CLASS_KEY@] == match opt_value(
                    STORAGE_CLASS_KEY@,
                    source.snapshot.properties,
                ) {
                    Some(v) => content(v),
                    None => Seq::empty(),
                }
            }
        }),
{
}

/// A shard under its next version has the same range, data and properties. What it is asked to
/// do follows from the properties.
pub proof fn law_next_version_is_the_same_shard(
    was: Shard,
    sequence: u64,
    schedule_at: u64,
    new: Shard,
)
    requires
        is_next_version(was, sequence, schedule_at, new),
    ensures
        new.engine_id == was.engine_id && new.id == was.id && new.ver == was.ver + 1,
        new.range@ == was.range@ && new.data@ == was.data@ && new.properties@ == was.properties@,
        new.active == was.active && !new.initial_flushed && new.base_version == was.base_version,
        new.meta_seq == sequence && new.write_sequence == sequence && new.parent_id == 0,
        new.max_ts >= was.max_ts || was.data@.mem_tbls.len() == 0,
        !new.compacting && new.compaction_priority is None,
        !was.properties@.contains_key(DEL_PREFIXES_KEY@)
            ==> new.pending_ops@.deletion.prefixes.len() == 0,
        new.pending_ops@.truncate_ts is None,
        new.pending_ops@.trim_over_bound <==> was.properties@.contains_key(TRIM_OVER_BOUND@)
            && was.properties@[TRIM_OVER_BOUND@].len() > 0,
        was.properties@.contains_key(STORAGE_CLASS_KEY@) ==> new.pending_ops@.storage_class
            == was.pending_ops@.storage_class,
{
}

/// The data of a shard that is made of a snapshot are the tables that were opened for it, of
/// the range of the snapshot. There is a memory table.
pub proof fn law_data_of_a_snapshot(
    snap: pb::Snapshot,
    mems: Seq<MemTable>,
    tables: SnapshotTables,
)
    ensures
        ({
            let d = data_of(snap, mems, tables);
            &&& d.range.start == content(snap.outer_start)
            &&& d.range.end == content(snap.outer_end)
            &&& mems.len() > 0 ==> d.mem_tbls.len() == mems.len()
            &&& forall|i: int| 0 <= i < mems.len() ==> #[trigger] d.mem_tbls[i] == mems[i]@
            &&& mems.len() == 0 ==> d.mem_tbls.len() == 1 && d.mem_tbls[0].keys.len() == 0
            &&& d.l0_tbls == tables.l0_tbls@
            &&& d.cfs.len() == tables.cfs@.len()
            &&& forall|i: int| 0 <= i < tables.cfs@.len() ==> #[trigger] d.cfs[i] == tables.cfs@[i]@
            &&& d.blob_tbls == tables.blob_tbls@
            &&& d.lock_txn_files.len() == tables.lock_txn_files@.len()
            &&& d.unloaded_tbls == tables.unloaded_tbls@
            &&& d.col_levels == tables.col_levels@
            &&& d.columnar_table_ids == tables.columnar_table_ids@
            &&& d.schema_version == tables.schema_version
            &&& d.restore_version == tables.restore_version
            &&& d.schema_file is Some <==> tables.schema_file is Some
        }),
{
}

/// A range is destroyed only where there is something to delete, when its time has come, and
/// when no memory table has a key between the inner form of a prefix and the end of it.
pub proof fn law_range_is_destroyed_when_memory_is_clear(
    d: Deletion,
    now: u64,
    data: Data,
    m: int,
    i: int,
    j: int,
)
    requires
        can_destroy_range(d, now, data),
        0 <= m < data.mem_tbls.len(),
        0 <= i < data.mem_tbls[m].keys.len(),
        0 <= j < d.prefixes.len(),
        d.prefixes[j].len() > d.keyspace_prefix_len,
    ensures
        now > d.schedule_at,
        ({
            let key = content(data.mem_tbls[m].keys[i]);
            !(lex_le(inner_of(d.prefixes[j]), key) && lex_lt(key, inner_end_of(d.nexts[j])))
        }),
{
    let b = delete_bound(d.keyspace_prefix_len, d.prefixes[j], d.nexts[j]);
    assert(!data.mem_tbls[m].in_bound(b));
    assert(!b.has(content(data.mem_tbls[m].keys[i])));
}

/// A range can be destroyed once its time has come and there is nothing in memory.
pub proof fn law_range_is_destroyed_when_memory_is_empty(d: Deletion, now: u64, data: Data)
    requires
        forall|i: int|
            0 <= i < data.mem_tbls.len() ==> (#[trigger] data.mem_tbls[i]).keys.len() == 0,
    ensures
        can_destroy_range(d, now, data) <==> d.prefixes.len() > 0 && now > d.schedule_at,
{
}

/// The blocks of ranges are counted range by range, from nothing on.
pub proof fn law_ranges_are_counted_in_turn(
    tables: Seq<SsTable>,
    indexes: Seq<BlockIndex>,
    ranges: Seq<(Bytes, Bytes)>,
    n: nat,
)
    requires
        n < ranges.len(),
    ensures
        walk_ranges(tables, indexes, ranges, 0).size == 0,
        walk_ranges(tables, indexes, ranges, n + 1) == walk_range(
            tables,
            indexes,
            walk_ranges(tables, indexes, ranges, n),
            range_bound(content(ranges[n as int].0), content(ranges[n as int].1)),
        ),
        walk_ranges(tables, indexes, ranges, 0).right == 0,
{
}

proof fn lemma_levels_blocks(
    levels: Seq<Level>,
    indexes: Seq<Vec<BlockIndex>>,
    ranges: Seq<(Bytes, Bytes)>,
    l: int,
)
    requires
        0 <= l <= levels.len(),
    ensures
        blocks_size_from(levels, indexes, ranges, l) == total(
            places(levels.len()).skip(l),
            |i: int| walk_ranges(levels[i].tables, indexes[i]@, ranges, ranges.len()).size,
        ),
    decreases levels.len() - l,
{
    let f = |i: int| walk_ranges(levels[i].tables, indexes[i]@, ranges, ranges.len()).size;
    let s = places(levels.len()).skip(l);
    if l < levels.len() {
        lemma_levels_blocks(levels, indexes, ranges, l + 1);
        assert(s[0] == l);
        assert(s.drop_first() =~= places(levels.len()).skip(l + 1));
    }
}

/// The size of the blocks of ranges is that of all levels together.
pub proof fn law_blocks_of_all_levels(
    levels: Seq<Level>,
    indexes: Seq<Vec<BlockIndex>>,
    ranges: Seq<(Bytes, Bytes)>,
)
    requires
        indexes.len() == levels.len(),
    ensures
        blocks_size_from(levels, indexes, ranges, 0) == total(
            places(levels.len()),
            |i: int| walk_ranges(levels[i].tables, indexes[i]@, ranges, ranges.len()).size,
        ),
{
    lemma_levels_blocks(levels, indexes, ranges, 0);
    assert(places(levels.len()).skip(0) =~= places(levels.len()));
}

} // verus!
