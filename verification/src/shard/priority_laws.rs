//! Which compaction a shard gets, told by what it holds and what is asked of it.
use vstd::prelude::*;

use crate::bound::BoundedDataSet;
use crate::buf::content;
use crate::del_prefixes::delete_bound;
use crate::file_meta::SnapVersion;
use crate::key::{lex_le, lex_lt};
use crate::keyspace::{inner_end_of, inner_of, GLOBAL_SHARD_END_KEY};
use crate::lists::{law_sort_dedup, lemma_filtered};
use crate::shard::data::{col_ids, ColumnarFile, Data, Schema, VectorIndexDef};
use crate::shard::priority::{
    best_vector, can_destroy_range, can_major_compact, can_truncate_ts, columnar_priority,
    first_dropped, has_def, high_priority, index_dropped, index_of, l0_over_bound, most_needed,
    new_rows, priority_of, table_difference, vector_override, vector_priority, vector_score,
    Asked, CompactionPriority, Priority, PriorityOptions, Scores, TableRows,
    VectorIndexBuildOptions, VectorState,
};
use crate::vectors::Vector;

verus! {

/// A key of some memory table lies from `lower` on and before `upper`.
pub open spec fn in_memory(data: Data, lower: Seq<u8>, upper: Seq<u8>) -> bool {
    exists|i: int, k: int|
        0 <= i < data.mem_tbls.len() && 0 <= k < data.mem_tbls[i].keys.len() && lex_le(
            lower,
            content(#[trigger] data.mem_tbls[i].keys[k]),
        ) && lex_lt(content(data.mem_tbls[i].keys[k]), upper)
}

/// A key of some memory table lies before `lower` or from `upper` on.
pub open spec fn in_memory_outside(data: Data, lower: Seq<u8>, upper: Seq<u8>) -> bool {
    exists|i: int, k: int|
        0 <= i < data.mem_tbls.len() && 0 <= k < data.mem_tbls[i].keys.len() && !(lex_le(
            lower,
            content(#[trigger] data.mem_tbls[i].keys[k]),
        ) && lex_lt(content(data.mem_tbls[i].keys[k]), upper))
}

/// Prefixes are to be deleted, their time has come, and no memory table has a key that they
/// delete.
pub open spec fn deletion_due(data: Data, asked: Asked) -> bool {
    let d = asked.deletion;
    &&& d.prefixes.len() > 0
    &&& asked.now > d.schedule_at
    &&& forall|j: int|
        0 <= j < d.prefixes.len() ==> {
            let p = #[trigger] d.prefixes[j];
            if p.len() <= d.keyspace_prefix_len {
                !in_memory(data, Seq::empty(), GLOBAL_SHARD_END_KEY@)
            } else {
                !in_memory(data, inner_of(p), inner_end_of(d.nexts[j]))
            }
        }
}

/// Versions are to be taken back, and no memory table has any of them.
pub open spec fn truncation_due(data: Data, asked: Asked) -> bool {
    &&& asked.truncate_ts is Some
    &&& forall|i: int|
        0 <= i < data.mem_tbls.len() ==> (#[trigger] data.mem_tbls[i]).max_ts
            <= asked.truncate_ts->0
}

/// Keys outside the shard are to be trimmed, and no memory table has any of them.
pub open spec fn trim_due(data: Data, asked: Asked) -> bool {
    asked.trim_over_bound && !in_memory_outside(
        data,
        inner_of(data.range.start),
        inner_end_of(data.range.end),
    )
}

/// A compaction of all tables is asked for, and none waits to be converted.
pub open spec fn rows_due(data: Data, asked: Asked) -> bool {
    asked.major is Enable && data.col_levels.unconverted_l0s.len() == 0
}

/// A compaction of all columnar files is asked for, there is such a file, and tables are kept
/// as columns and are to be.
pub open spec fn columns_due(data: Data, asked: Asked) -> bool {
    &&& asked.major is EnableColumnar
    &&& data.schema_file is Some && data.schema_file->0.columnar_tables.len() > 0
    &&& data.columnar_table_ids.len() > 0
    &&& exists|l: int|
        0 <= l < data.col_levels.levels.len() && (#[trigger] data.col_levels.levels[l]).len() > 0
}

/// Nothing that is asked for can be done now.
pub open spec fn nothing_due(data: Data, asked: Asked) -> bool {
    &&& !deletion_due(data, asked)
    &&& !truncation_due(data, asked)
    &&& !trim_due(data, asked)
    &&& !rows_due(data, asked)
    &&& !columns_due(data, asked)
}

/// Blob tables hold too little that is in use, and nothing waits to be converted.
pub open spec fn blobs_due(data: Data, scores: Scores) -> bool {
    data.blob_tbls.len() > 0 && scores.blob_gc && data.col_levels.unconverted_l0s.len() == 0
}

/// Some table of level 0 has a key outside the shard.
pub open spec fn l0_outside(data: Data) -> bool {
    exists|i: int|
        0 <= i < data.l0_tbls.len() && !(lex_le(
            inner_of(data.range.start),
            content((#[trigger] data.l0_tbls[i]).smallest),
        ) && lex_lt(content(data.l0_tbls[i].biggest), inner_end_of(data.range.end)))
}

proof fn lemma_col_ids(levels: Seq<Seq<ColumnarFile>>)
    ensures
        col_ids(levels).len() > 0 <==> exists|l: int|
            0 <= l < levels.len() && (#[trigger] levels[l]).len() > 0,
    decreases levels.len(),
{
    if levels.len() > 0 {
        let init = levels.drop_last();
        lemma_col_ids(init);
        assert(levels[levels.len() - 1] == levels.last());
        if exists|l: int| 0 <= l < init.len() && (#[trigger] init[l]).len() > 0 {
            let l = choose|l: int| 0 <= l < init.len() && (#[trigger] init[l]).len() > 0;
            assert(levels[l] == init[l]);
        }
        if exists|l: int| 0 <= l < levels.len() && (#[trigger] levels[l]).len() > 0 {
            let l = choose|l: int| 0 <= l < levels.len() && (#[trigger] levels[l]).len() > 0;
            if l < init.len() {
                assert(init[l] == levels[l]);
            }
        }
    }
}

proof fn lemma_due(data: Data, asked: Asked)
    ensures
        can_destroy_range(asked.deletion, asked.now, data) == deletion_due(
            data,
            asked,
        ),
        (asked.trim_over_bound && !data.mem_over_bound()) == trim_due(data, asked),
        can_truncate_ts(asked.truncate_ts, data) == truncation_due(
            data,
            asked,
        ),
        can_major_compact(asked.major, data) == (rows_due(data, asked)
            || columns_due(data, asked)),
{
    lemma_col_ids(data.col_levels.levels);
    let d = asked.deletion;
    let can = can_destroy_range(d, asked.now, data);
    if can {
        assert forall|j: int| 0 <= j < d.prefixes.len() implies ({
            let p = #[trigger] d.prefixes[j];
            if p.len() <= d.keyspace_prefix_len {
                !in_memory(data, Seq::empty(), GLOBAL_SHARD_END_KEY@)
            } else {
                !in_memory(data, inner_of(p), inner_end_of(d.nexts[j]))
            }
        }) by {
            let b = delete_bound(
                d.keyspace_prefix_len,
                d.prefixes[j],
                d.nexts[j],
            );
            if in_memory(data, b.lower, b.upper) {
                let (i, k) = choose|i: int, k: int|
                    0 <= i < data.mem_tbls.len() && 0 <= k < data.mem_tbls[i].keys.len() && lex_le(
                        b.lower,
                        content(#[trigger] data.mem_tbls[i].keys[k]),
                    ) && lex_lt(content(data.mem_tbls[i].keys[k]), b.upper);
                assert(data.mem_tbls[i].in_bound(b));
            }
        }
    }
    if deletion_due(data, asked) {
        assert forall|i: int, j: int|
            0 <= i < data.mem_tbls.len() && 0 <= j < d.prefixes.len() implies !(
        #[trigger] data.mem_tbls[i]).in_bound(
            delete_bound(
                d.keyspace_prefix_len,
                #[trigger] d.prefixes[j],
                d.nexts[j],
            ),
        ) by {
            let b = delete_bound(
                d.keyspace_prefix_len,
                d.prefixes[j],
                d.nexts[j],
            );
            if data.mem_tbls[i].in_bound(b) {
                let k = choose|k: int|
                    0 <= k < data.mem_tbls[i].keys.len() && b.has(
                        content(#[trigger] data.mem_tbls[i].keys[k]),
                    );
                assert(in_memory(data, b.lower, b.upper));
            }
        }
    }
    let b = data.range.inner_bound();
    if data.mem_over_bound() {
        let i = choose|i: int|
            0 <= i < data.mem_tbls.len() && (#[trigger] data.mem_tbls[i]).over_bound(b);
        let k = choose|k: int|
            0 <= k < data.mem_tbls[i].keys.len() && !b.has(
                content(#[trigger] data.mem_tbls[i].keys[k]),
            );
        assert(in_memory_outside(data, b.lower, b.upper));
    }
    if in_memory_outside(data, b.lower, b.upper) {
        let (i, k) = choose|i: int, k: int|
            0 <= i < data.mem_tbls.len() && 0 <= k < data.mem_tbls[i].keys.len() && !(lex_le(
                b.lower,
                content(#[trigger] data.mem_tbls[i].keys[k]),
            ) && lex_lt(content(data.mem_tbls[i].keys[k]), b.upper));
        assert(data.mem_tbls[i].over_bound(b));
    }
}

proof fn lemma_l0_outside(data: Data)
    ensures
        l0_over_bound(data.l0_tbls, data.range.inner_bound()) == l0_outside(
            data,
        ),
{
    let b = data.range.inner_bound();
    if l0_over_bound(data.l0_tbls, b) {
        let i = choose|i: int|
            0 <= i < data.l0_tbls.len() && !b.covers((#[trigger] data.l0_tbls[i]).bound());
        assert(l0_outside(data));
    }
    if l0_outside(data) {
        let i = choose|i: int|
            0 <= i < data.l0_tbls.len() && !(lex_le(
                inner_of(data.range.start),
                content((#[trigger] data.l0_tbls[i]).smallest),
            ) && lex_lt(content(data.l0_tbls[i].biggest), inner_end_of(data.range.end)));
        assert(!b.covers(data.l0_tbls[i].bound()));
    }
}

/// What was asked for comes first, once nothing of it is in memory: deleted prefixes, versions
/// to be taken back, keys outside the shard, and a compaction of everything. Each is done if
/// and only if it is due and nothing before it is. Then blob tables are rewritten that hold too
/// little in use.
pub proof fn law_what_is_asked_for_comes_first(
    data: Data,
    asked: Asked,
    opts: PriorityOptions,
    outdated: i64,
    tables: Seq<i64>,
    states: Seq<VectorState>,
    rows: Seq<TableRows>,
    scores: Scores,
    res: Option<CompactionPriority>,
)
    requires
        priority_of(res) == most_needed(data, asked, opts, outdated, tables, states, rows, scores),
    ensures
        res == Some(CompactionPriority::DestroyRange) <==> deletion_due(data, asked),
        res == Some(CompactionPriority::TruncateTs) <==> !deletion_due(data, asked)
            && truncation_due(data, asked),
        res == Some(CompactionPriority::TrimOverBound) <==> !deletion_due(data, asked)
            && !truncation_due(data, asked) && trim_due(data, asked),
        res == Some(CompactionPriority::Major { is_manual: true }) <==> !deletion_due(data, asked)
            && !truncation_due(data, asked) && !trim_due(data, asked) && rows_due(data, asked),
        !deletion_due(data, asked) && !truncation_due(data, asked) && !trim_due(data, asked)
            && columns_due(data, asked) ==> (res matches Some(
            CompactionPriority::ColumnarMajor {
                table_ids_to_add,
                table_ids_to_clear,
                is_manual,
                schema_version,
            },
        ) && is_manual && table_ids_to_add@.len() == 0 && table_ids_to_clear@.len() == 0
            && schema_version == data.schema_file->0.version),
        res == Some(CompactionPriority::Major { is_manual: false }) <==> nothing_due(data, asked)
            && blobs_due(data, scores),
{
    lemma_due(data, asked);
    lemma_results(data, opts, outdated, tables, states, rows, scores);
}

/// What columnar files and vector indexes need is never one of the others.
proof fn lemma_results(
    data: Data,
    opts: PriorityOptions,
    outdated: i64,
    tables: Seq<i64>,
    states: Seq<VectorState>,
    rows: Seq<TableRows>,
    scores: Scores,
)
    ensures
        ({
            let high = high_priority(data, opts.ignore_columnar_table_load, outdated);
            let col = columnar_priority(data, opts, tables, states, scores);
            let vec = vector_priority(data, states, rows, opts.vector);
            &&& high matches Some(p) ==> p is ColumnarClear || p is UpdateVectorIndex
                || p is L0ToColumnar
            &&& col matches Some(p) ==> p is ColumnarMajor || p is ColumnarL0 || p is ColumnarL1
                || p is UpdateVectorIndex
            &&& vec matches Some(p) ==> p is UpdateVectorIndex
        }),
{
    if data.schema_file is Some {
        lemma_override(
            data.vector_indexes,
            states,
            data.col_levels.levels[1][0].snap(),
        );
        lemma_best(data, data.schema_file->0.vector_indexes, states, rows, opts.vector);
    }
}

proof fn lemma_override(v: Seq<Vector>, states: Seq<VectorState>, version: SnapVersion)
    ensures
        vector_override(v, states, version) matches Some(p) ==> p is UpdateVectorIndex,
    decreases v.len(),
{
    if v.len() > 0 {
        lemma_override(v.drop_first(), states.drop_first(), version);
    }
}

proof fn lemma_best(
    data: Data,
    defs: Seq<VectorIndexDef>,
    states: Seq<VectorState>,
    rows: Seq<TableRows>,
    opts: VectorIndexBuildOptions,
)
    ensures
        best_vector(data, defs, states, rows, opts).0 matches Some(p) ==> p is UpdateVectorIndex,
    decreases defs.len(),
{
    if defs.len() > 0 {
        lemma_best(data, defs.drop_last(), states, rows, opts);
    }
}

/// Where nothing is asked for, no blobs are to be collected and no columnar files wait, a table
/// of level 0 that has keys outside the shard makes it level 0. Otherwise the compaction is of
/// level 0 if and only if that has the highest score, and of a lower level of a column family
/// if and only if that one has.
pub proof fn law_highest_score_is_compacted(
    data: Data,
    asked: Asked,
    opts: PriorityOptions,
    outdated: i64,
    tables: Seq<i64>,
    states: Seq<VectorState>,
    rows: Seq<TableRows>,
    scores: Scores,
    res: Option<CompactionPriority>,
)
    requires
        priority_of(res) == most_needed(data, asked, opts, outdated, tables, states, rows, scores),
        nothing_due(data, asked),
        !blobs_due(data, scores),
        !columns_wait(data, opts.ignore_columnar_table_load, outdated),
    ensures
        res == Some(CompactionPriority::L0) <==> l0_outside(data) || exists|cf: usize|
            #[trigger] is_highest(scores, cf, 0),
        forall|cf: usize, level: usize|
            level > 0 ==> (res == Some(CompactionPriority::L1Plus { cf, level }) <==> !l0_outside(
                data,
            ) && #[trigger] is_highest(scores, cf, level)),
        !l0_outside(data) && scores.highest is None && res is Some ==> {
            ||| res->0 is ColumnarMajor
            ||| res->0 is ColumnarL0
            ||| res->0 is ColumnarL1
            ||| res->0 is UpdateVectorIndex
        },
{
    lemma_due(data, asked);
    lemma_l0_outside(data);
    lemma_results(data, opts, outdated, tables, states, rows, scores);
    lemma_columns_that_wait(data, opts.ignore_columnar_table_load, outdated);
    if let Some((cf, level)) = scores.highest {
        assert(is_highest(scores, cf, level));
    }
}

/// The level of the column family has the highest score, above one.
pub open spec fn is_highest(scores: Scores, cf: usize, level: usize) -> bool {
    scores.highest == Some((cf, level))
}

/// The schema has the table of the index, but no such index.
pub open spec fn schema_lacks(s: Schema, v: Vector) -> bool {
    &&& s.tables.contains(v.table_id)
    &&& forall|i: int|
        0 <= i < s.vector_indexes.len() ==> !((#[trigger] s.vector_indexes[i]).table_id
            == v.table_id && s.vector_indexes[i].index_id == v.index_id
            && s.vector_indexes[i].col_id == v.col_id)
}

/// Columnar files or vector indexes wait for something that comes before the compaction of
/// tables: columns of no schema, an index that the schema lacks, or tables of level 0 without
/// columnar file. Where the schema is outdated the latter wait until there are too many.
pub open spec fn columns_wait(data: Data, ignored: bool, outdated: i64) -> bool {
    &&& !ignored
    &&& match data.schema_file {
        None => data.columnar_table_ids.len() > 0,
        Some(s) => {
            ||| exists|i: int|
                0 <= i < data.vector_indexes.len() && schema_lacks(
                    s,
                    #[trigger] data.vector_indexes[i],
                )
            ||| data.col_levels.unconverted_l0s.len() > 0 && outdated != s.version
            ||| data.col_levels.unconverted_l0s.len() > 32
        },
    }
}

proof fn lemma_first_dropped(s: Schema, v: Seq<Vector>)
    ensures
        match first_dropped(s, v) {
            Some(d) => exists|i: int|
                0 <= i < v.len() && schema_lacks(s, #[trigger] v[i]) && d == v[i] && forall|j: int|
                    0 <= j < i ==> !schema_lacks(s, #[trigger] v[j]),
            None => forall|i: int| 0 <= i < v.len() ==> !schema_lacks(s, #[trigger] v[i]),
        },
    decreases v.len(),
{
    if v.len() > 0 {
        assert(index_dropped(s, v[0]) == schema_lacks(s, v[0])) by {
            if has_def(s.vector_indexes, v[0]) {
                let i = choose|i: int|
                    0 <= i < s.vector_indexes.len() && (
                    #[trigger] s.vector_indexes[i]).table_id == v[0].table_id
                        && s.vector_indexes[i].index_id == v[0].index_id
                        && s.vector_indexes[i].col_id == v[0].col_id;
                assert(!schema_lacks(s, v[0]));
            }
        }
        let rest = v.drop_first();
        lemma_first_dropped(s, rest);
        if !schema_lacks(s, v[0]) {
            match first_dropped(s, rest) {
                Some(d) => {
                    let i = choose|i: int|
                        0 <= i < rest.len() && schema_lacks(s, #[trigger] rest[i]) && d == rest[i]
                            && forall|j: int|
                            0 <= j < i ==> !schema_lacks(s, #[trigger] rest[j]);
                    assert(v[i + 1] == rest[i]);
                    assert forall|j: int| 0 <= j < i + 1 implies !schema_lacks(
                        s,
                        #[trigger] v[j],
                    ) by {
                        if j > 0 {
                            assert(rest[j - 1] == v[j]);
                        }
                    }
                },
                None => {
                    assert forall|i: int| 0 <= i < v.len() implies !schema_lacks(
                        s,
                        #[trigger] v[i],
                    ) by {
                        if i > 0 {
                            assert(rest[i - 1] == v[i]);
                        }
                    }
                },
            }
        }
    }
}

/// What comes before the compaction of tables, if and only if something waits: columns of no
/// schema are dropped, and so are those of an outdated one once too many tables wait; an index
/// that the schema lacks is removed, the first of them; tables of level 0 without columnar file
/// are converted.
proof fn lemma_columns_that_wait(data: Data, ignored: bool, outdated: i64)
    ensures
        high_priority(data, ignored, outdated) is Some <==> columns_wait(data, ignored, outdated),
        high_priority(data, ignored, outdated) matches Some(Priority::UpdateVectorIndex {
            table_id,
            index_id,
            col_id,
            rebuild,
        }) ==> rebuild && exists|i: int|
            0 <= i < data.vector_indexes.len() && schema_lacks(
                data.schema_file->0,
                #[trigger] data.vector_indexes[i],
            ) && data.vector_indexes[i].table_id == table_id && data.vector_indexes[i].index_id
                == index_id && data.vector_indexes[i].col_id == col_id && forall|j: int|
                0 <= j < i ==> !schema_lacks(
                    data.schema_file->0,
                    #[trigger] data.vector_indexes[j],
                ),
        !ignored && data.schema_file is None && data.columnar_table_ids.len() > 0 ==> high_priority(
            data,
            ignored,
            outdated,
        ) == Some(Priority::ColumnarClear),
        !ignored && data.schema_file is Some ==> {
            let s = data.schema_file->0;
            let lacks = exists|i: int|
                0 <= i < data.vector_indexes.len() && schema_lacks(
                    s,
                    #[trigger] data.vector_indexes[i],
                );
            let waiting = data.col_levels.unconverted_l0s.len();
            let high = high_priority(data, ignored, outdated);
            &&& lacks ==> high is Some && high->0 is UpdateVectorIndex
            &&& !lacks && waiting > 0 && outdated != s.version ==> high == Some(
                Priority::L0ToColumnar,
            )
            &&& !lacks && waiting > 32 && outdated == s.version ==> high == Some(
                Priority::ColumnarClear,
            )
        },
{
    if data.schema_file is Some {
        lemma_first_dropped(data.schema_file->0, data.vector_indexes);
    }
}

/// The update is of the first vector index that the schema lacks, which it removes.
pub open spec fn removes_index(p: CompactionPriority, data: Data) -> bool {
    &&& p matches CompactionPriority::UpdateVectorIndex { table_id, index_id, col_id, rebuild }
    &&& rebuild
    &&& exists|i: int|
        0 <= i < data.vector_indexes.len() && schema_lacks(
            data.schema_file->0,
            #[trigger] data.vector_indexes[i],
        ) && data.vector_indexes[i].table_id == table_id && data.vector_indexes[i].index_id
            == index_id && data.vector_indexes[i].col_id == col_id && forall|j: int|
            0 <= j < i ==> !schema_lacks(data.schema_file->0, #[trigger] data.vector_indexes[j])
}

/// What waits comes before the compaction of tables and behind what is asked for. Columns of no
/// schema are dropped, and so are those of an outdated one once too many tables wait. An index
/// that the schema lacks is removed, the first of them. Otherwise tables of level 0 without
/// columnar file are converted.
pub proof fn law_columns_that_wait_come_next(
    data: Data,
    asked: Asked,
    opts: PriorityOptions,
    outdated: i64,
    tables: Seq<i64>,
    states: Seq<VectorState>,
    rows: Seq<TableRows>,
    scores: Scores,
    res: Option<CompactionPriority>,
)
    requires
        priority_of(res) == most_needed(data, asked, opts, outdated, tables, states, rows, scores),
        nothing_due(data, asked),
        !blobs_due(data, scores),
        columns_wait(data, opts.ignore_columnar_table_load, outdated),
    ensures
        res is Some,
        data.schema_file is None ==> res->0 is ColumnarClear,
        data.schema_file is Some ==> {
            let s = data.schema_file->0;
            if exists|i: int|
                0 <= i < data.vector_indexes.len() && schema_lacks(
                    s,
                    #[trigger] data.vector_indexes[i],
                ) {
                removes_index(res->0, data)
            } else if outdated == s.version {
                res->0 is ColumnarClear
            } else {
                res->0 is L0ToColumnar
            }
        },
{
    lemma_due(data, asked);
    lemma_columns_that_wait(data, opts.ignore_columnar_table_load, outdated);
    lemma_results(data, opts, outdated, tables, states, rows, scores);
}

/// The list names each table that the first has and the second has not, and no other.
pub proof fn law_table_difference(a: Seq<i64>, b: Seq<i64>, id: i64)
    ensures
        table_difference(a, b).contains(id) <==> a.contains(id) && !b.contains(id),
{
    let only = a.filter(|x: i64| !b.contains(x));
    law_sort_dedup(only);
    lemma_filtered(a, |x: i64| !b.contains(x), id);
}

/// An index has to be updated before columnar files are merged into the lowest level: it has
/// to be built anew, or does not cover the files yet.
pub open spec fn index_behind(v: Vector, state: VectorState, version: SnapVersion) -> bool {
    state.need_rebuild || v.snap_version < version.version
}

proof fn lemma_first_behind(v: Seq<Vector>, states: Seq<VectorState>, version: SnapVersion)
    requires
        v.len() == states.len(),
    ensures
        match vector_override(v, states, version) {
            Some(p) => exists|i: int|
                0 <= i < v.len() && index_behind(#[trigger] v[i], states[i], version) && (
                forall|j: int|
                    0 <= j < i ==> !index_behind(#[trigger] v[j], states[j], version)) && p == (
                Priority::UpdateVectorIndex {
                    table_id: v[i].table_id,
                    index_id: v[i].index_id,
                    col_id: v[i].col_id,
                    rebuild: states[i].need_rebuild,
                }),
            None => forall|i: int|
                0 <= i < v.len() ==> !index_behind(#[trigger] v[i], states[i], version),
        },
    decreases v.len(),
{
    if v.len() > 0 {
        let rest = v.drop_first();
        let left = states.drop_first();
        lemma_first_behind(rest, left, version);
        if !index_behind(v[0], states[0], version) {
            match vector_override(rest, left, version) {
                Some(p) => {
                    let i = choose|i: int|
                        0 <= i < rest.len() && index_behind(#[trigger] rest[i], left[i], version)
                            && (forall|j: int|
                            0 <= j < i ==> !index_behind(#[trigger] rest[j], left[j], version))
                            && p == (Priority::UpdateVectorIndex {
                            table_id: rest[i].table_id,
                            index_id: rest[i].index_id,
                            col_id: rest[i].col_id,
                            rebuild: left[i].need_rebuild,
                        });
                    assert(v[i + 1] == rest[i]);
                    assert forall|j: int| 0 <= j < i + 1 implies !index_behind(
                        #[trigger] v[j],
                        states[j],
                        version,
                    ) by {
                        if j > 0 {
                            assert(rest[j - 1] == v[j]);
                        }
                    }
                },
                None => {
                    assert forall|i: int| 0 <= i < v.len() implies !index_behind(
                        #[trigger] v[i],
                        states[i],
                        version,
                    ) by {
                        if i > 0 {
                            assert(rest[i - 1] == v[i]);
                        }
                    }
                },
            }
        } else {
            assert(v[0] == v[0]);
        }
    }
}

/// What columnar files need. Tables that the schema and the shard do not both keep as columns
/// are added or cleared. Then level 0 is compacted where it has too many files or the higher
/// score, and then level 1; in its place an index that is behind is updated.
proof fn lemma_columnar_needs(
    data: Data,
    opts: PriorityOptions,
    tables: Seq<i64>,
    states: Seq<VectorState>,
    scores: Scores,
)
    requires
        states.len() == data.vector_indexes.len(),
    ensures
        ({
            let res = columnar_priority(data, opts, tables, states, scores);
            let differ = opts.build_columnar && exists|id: i64|
                #[trigger] tables.contains(id) != data.columnar_table_ids.contains(id);
            let many_l0 = data.col_levels.levels[0].len() > 32 || scores.col_l0;
            let many_l1 = data.col_levels.levels[1].len() > 64 || scores.col_l1;
            let reads = !opts.ignore_columnar_table_load && data.schema_file is Some;
            let version = data.col_levels.levels[1][0].snap();
            let behind = exists|i: int|
                0 <= i < data.vector_indexes.len() && index_behind(
                    #[trigger] data.vector_indexes[i],
                    states[i],
                    version,
                );
            &&& !reads ==> res is None
            &&& reads && differ ==> (res matches Some(
                Priority::ColumnarMajor { add, clear, is_manual, schema_version },
            ) && !is_manual && schema_version == data.schema_file->0.version && (forall|id: i64|
                #[trigger] add.contains(id) <==> tables.contains(id)
                    && !data.columnar_table_ids.contains(id)) && (forall|id: i64|
                #[trigger] clear.contains(id) <==> data.columnar_table_ids.contains(id)
                    && !tables.contains(id)))
            &&& reads && !differ && many_l0 ==> res == Some(Priority::ColumnarL0)
            &&& reads && !differ && !many_l0 && many_l1 && !behind ==> res == Some(
                Priority::ColumnarL1,
            )
            &&& reads && !differ && !many_l0 && many_l1 && behind ==> res == vector_override(
                data.vector_indexes,
                states,
                version,
            )
            &&& reads && !differ && !many_l0 && !many_l1 ==> res is None
        }),
{
    let add = table_difference(tables, data.columnar_table_ids);
    let clear = table_difference(data.columnar_table_ids, tables);
    assert forall|id: i64| #[trigger] add.contains(id) <==> tables.contains(id)
        && !data.columnar_table_ids.contains(id) by {
        law_table_difference(tables, data.columnar_table_ids, id);
    }
    assert forall|id: i64| #[trigger] clear.contains(id) <==> data.columnar_table_ids.contains(id)
        && !tables.contains(id) by {
        law_table_difference(data.columnar_table_ids, tables, id);
    }
    let some = exists|id: i64|
        #[trigger] tables.contains(id) != data.columnar_table_ids.contains(id);
    if some {
        let id = choose|id: i64|
            #[trigger] tables.contains(id) != data.columnar_table_ids.contains(id);
        assert(add.contains(id) || clear.contains(id));
    }
    if add.len() > 0 {
        assert(add.contains(add[0]));
        assert(tables.contains(add[0]) != data.columnar_table_ids.contains(add[0]));
    }
    if clear.len() > 0 {
        assert(clear.contains(clear[0]));
        assert(tables.contains(clear[0]) != data.columnar_table_ids.contains(clear[0]));
    }
    let version = data.col_levels.levels[1][0].snap();
    lemma_first_behind(data.vector_indexes, states, version);
    if data.vector_indexes.len() > 0 {
        lemma_override(data.vector_indexes, states, version);
    }
}

/// The new rows of two lists of files are those of the first and those of the second; those of
/// one file are all of its rows or none.
pub proof fn law_new_rows_are_added_up(
    a: Seq<TableRows>,
    b: Seq<TableRows>,
    r: TableRows,
    table_id: i64,
    version: SnapVersion,
)
    ensures
        new_rows(a + b, table_id, version) == new_rows(a, table_id, version) + new_rows(
            b,
            table_id,
            version,
        ),
        row_is_new(r, table_id, version) ==> new_rows(seq![r], table_id, version) == r.rows,
        !row_is_new(r, table_id, version) ==> new_rows(seq![r], table_id, version) == 0,
    decreases b.len(),
{
    assert(seq![r].drop_last() =~= Seq::empty());
    assert(new_rows(seq![r].drop_last(), table_id, version) == 0);
    if b.len() == 0 {
        assert(a + b =~= a);
    } else {
        law_new_rows_are_added_up(a, b.drop_last(), r, table_id, version);
        assert((a + b).drop_last() =~= a + b.drop_last());
        assert((a + b).last() == b.last());
    }
}

/// The rows of a table that are newer than its index: a file of the lowest level, or one that
/// is not newer than the index, has none of them, and every other file of the table has all of
/// its rows among them.
pub proof fn law_new_rows_are_counted(rows: Seq<TableRows>, table_id: i64, version: SnapVersion)
    ensures
        new_rows(rows, table_id, version) >= 0,
        (forall|i: int| 0 <= i < rows.len() ==> !row_is_new(#[trigger] rows[i], table_id, version))
            ==> new_rows(rows, table_id, version) == 0,
        forall|i: int|
            0 <= i < rows.len() && row_is_new(#[trigger] rows[i], table_id, version) ==> new_rows(
                rows,
                table_id,
                version,
            ) >= rows[i].rows,
    decreases rows.len(),
{
    if rows.len() > 0 {
        let init = rows.drop_last();
        law_new_rows_are_counted(init, table_id, version);
        let last = rows[rows.len() - 1];
        assert(last == rows.last());
        assert(row_is_new(last, table_id, version) || !row_is_new(last, table_id, version));
        assert forall|i: int| 0 <= i < rows.len() && row_is_new(
            #[trigger] rows[i],
            table_id,
            version,
        ) implies new_rows(rows, table_id, version) >= rows[i].rows by {
            if i < init.len() {
                assert(init[i] == rows[i]);
            }
        }
        if forall|i: int|
            0 <= i < rows.len() ==> !row_is_new(#[trigger] rows[i], table_id, version) {
            assert forall|i: int| 0 <= i < init.len() implies !row_is_new(
                #[trigger] init[i],
                table_id,
                version,
            ) by {
                assert(rows[i] == init[i]);
            }
        }
    }
}

/// The file has rows of the table that the index does not cover.
pub open spec fn row_is_new(r: TableRows, table_id: i64, version: SnapVersion) -> bool {
    r.table_id == table_id && (version.version == 0 || (r.level != 2 && r.snap_version.version
        > version.version))
}

/// The index is the first of the definition.
pub open spec fn index_at(v: Seq<Vector>, def: VectorIndexDef, i: int) -> bool {
    &&& 0 <= i < v.len()
    &&& v[i].table_id == def.table_id && v[i].index_id == def.index_id && v[i].col_id == def.col_id
    &&& forall|j: int|
        0 <= j < i ==> !((#[trigger] v[j]).table_id == def.table_id && v[j].index_id
            == def.index_id && v[j].col_id == def.col_id)
}

proof fn lemma_index_of(v: Seq<Vector>, def: VectorIndexDef)
    ensures
        match index_of(v, def) {
            Some(i) => index_at(v, def, i),
            None => forall|i: int| !#[trigger] index_at(v, def, i),
        },
        forall|i: int| #[trigger] index_at(v, def, i) ==> index_of(v, def) == Some(i),
    decreases v.len(),
{
    if v.len() > 0 {
        let rest = v.drop_first();
        lemma_index_of(rest, def);
        let first = v[0].is_of(def.table_id, def.index_id, def.col_id);
        if !first {
            assert forall|i: int| #[trigger] index_at(v, def, i) implies index_at(
                rest,
                def,
                i - 1,
            ) by {
                assert(i > 0);
                assert(rest[i - 1] == v[i]);
                assert forall|j: int| 0 <= j < i - 1 implies !((#[trigger] rest[j]).table_id
                    == def.table_id && rest[j].index_id == def.index_id && rest[j].col_id
                    == def.col_id) by {
                    assert(v[j + 1] == rest[j]);
                }
            }
            if let Some(i) = index_of(rest, def) {
                assert(v[i + 1] == rest[i]);
                assert forall|j: int| 0 <= j < i + 1 implies !((#[trigger] v[j]).table_id
                    == def.table_id && v[j].index_id == def.index_id && v[j].col_id
                    == def.col_id) by {
                    if j > 0 {
                        assert(rest[j - 1] == v[j]);
                    }
                }
                assert(index_at(v, def, i + 1));
            }
        } else {
            assert(index_at(v, def, 0));
        }
    }
}

/// The index of the definition has a file of an old format.
pub open spec fn index_legacy(data: Data, def: VectorIndexDef, states: Seq<VectorState>) -> bool {
    exists|i: int| #[trigger] index_at(data.vector_indexes, def, i) && states[i].legacy
}

/// The index of the definition needs an update: it is of an old format, has too many files, or
/// enough vectors are new.
pub open spec fn index_needs(
    data: Data,
    def: VectorIndexDef,
    states: Seq<VectorState>,
    rows: Seq<TableRows>,
    opts: VectorIndexBuildOptions,
) -> bool {
    ||| exists|i: int| #[trigger]
        index_at(data.vector_indexes, def, i) && (states[i].legacy
            || data.vector_indexes[i].files.len() >= opts.rebuild_file_count || new_rows(
            rows,
            def.table_id,
            SnapVersion { version: data.vector_indexes[i].snap_version },
        ) * def.dimension * 4 >= opts.delta_size)
    ||| (forall|i: int| !#[trigger] index_at(data.vector_indexes, def, i)) && new_rows(
        rows,
        def.table_id,
        SnapVersion { version: 0 },
    ) * def.dimension * 4 >= opts.delta_size
}

proof fn lemma_score(
    data: Data,
    def: VectorIndexDef,
    states: Seq<VectorState>,
    rows: Seq<TableRows>,
    opts: VectorIndexBuildOptions,
)
    ensures
        ({
            let (score, rebuild) = vector_score(data, def, states, rows, opts);
            &&& score == 0 || score == 11 || score == 20
            &&& score > 10 <==> index_needs(data, def, states, rows, opts)
            &&& score == 20 <==> index_legacy(data, def, states)
            &&& score > 10 ==> rebuild == index_rebuilt(data, def, states, opts)
        }),
{
    lemma_index_of(data.vector_indexes, def);
}

/// The index of the definition is built anew: there is none yet, it covers nothing, it is of an
/// old format, or has too many files.
pub open spec fn index_rebuilt(
    data: Data,
    def: VectorIndexDef,
    states: Seq<VectorState>,
    opts: VectorIndexBuildOptions,
) -> bool {
    forall|i: int| #[trigger]
        index_at(data.vector_indexes, def, i) ==> states[i].legacy
            || data.vector_indexes[i].files.len() >= opts.rebuild_file_count
            || data.vector_indexes[i].snap_version == 0
}

spec fn updates(
    p: Priority,
    def: VectorIndexDef,
    data: Data,
    states: Seq<VectorState>,
    opts: VectorIndexBuildOptions,
) -> bool {
    p matches Priority::UpdateVectorIndex { table_id, index_id, col_id, rebuild } && table_id
        == def.table_id && index_id == def.index_id && col_id == def.col_id && rebuild
        == index_rebuilt(data, def, states, opts)
}

/// Of the vector indexes that the schema defines, one is updated if and only if one needs it;
/// and one with files of an old format comes before all others.
proof fn lemma_vector_needs(
    data: Data,
    defs: Seq<VectorIndexDef>,
    states: Seq<VectorState>,
    rows: Seq<TableRows>,
    opts: VectorIndexBuildOptions,
)
    ensures
        ({
            let (res, score) = best_vector(data, defs, states, rows, opts);
            &&& score == 10 || score == 11 || score == 20
            &&& res is Some <==> score > 10
            &&& res is Some <==> exists|i: int|
                0 <= i < defs.len() && index_needs(data, #[trigger] defs[i], states, rows, opts)
            &&& score == 20 <==> exists|i: int|
                0 <= i < defs.len() && index_legacy(data, #[trigger] defs[i], states)
            &&& res matches Some(p) ==> exists|i: int|
                0 <= i < defs.len() && updates(p, #[trigger] defs[i], data, states, opts) && index_needs(
                    data,
                    defs[i],
                    states,
                    rows,
                    opts,
                ) && (score == 20 ==> index_legacy(data, defs[i], states))
        }),
    decreases defs.len(),
{
    if defs.len() > 0 {
        let init = defs.drop_last();
        lemma_vector_needs(data, init, states, rows, opts);
        let d = defs[defs.len() - 1];
        assert(d == defs.last());
        lemma_score(data, d, states, rows, opts);
        assert forall|i: int| 0 <= i < init.len() implies #[trigger] init[i] == defs[i] by {}
        let (res, score) = best_vector(data, init, states, rows, opts);
        if exists|i: int|
            0 <= i < init.len() && index_needs(data, #[trigger] init[i], states, rows, opts) {
            let i = choose|i: int|
                0 <= i < init.len() && index_needs(data, #[trigger] init[i], states, rows, opts);
            assert(index_needs(data, defs[i], states, rows, opts));
        }
        if exists|i: int| 0 <= i < init.len() && index_legacy(data, #[trigger] init[i], states) {
            let i = choose|i: int|
                0 <= i < init.len() && index_legacy(data, #[trigger] init[i], states);
            assert(index_legacy(data, defs[i], states));
        }
        if exists|i: int|
            0 <= i < defs.len() && index_needs(data, #[trigger] defs[i], states, rows, opts) {
            let i = choose|i: int|
                0 <= i < defs.len() && index_needs(data, #[trigger] defs[i], states, rows, opts);
            if i < init.len() {
                assert(index_needs(data, init[i], states, rows, opts));
            }
        }
        if exists|i: int| 0 <= i < defs.len() && index_legacy(data, #[trigger] defs[i], states) {
            let i = choose|i: int|
                0 <= i < defs.len() && index_legacy(data, #[trigger] defs[i], states);
            if i < init.len() {
                assert(index_legacy(data, init[i], states));
            }
        }
        if let Some(p) = res {
            let i = choose|i: int|
                0 <= i < init.len() && updates(p, #[trigger] init[i], data, states, opts) && index_needs(
                    data,
                    init[i],
                    states,
                    rows,
                    opts,
                ) && (score == 20 ==> index_legacy(data, init[i], states));
            assert(updates(p, defs[i], data, states, opts));
        }
        assert(updates(
            Priority::UpdateVectorIndex {
                table_id: d.table_id,
                index_id: d.index_id,
                col_id: d.col_id,
                rebuild: vector_score(data, d, states, rows, opts).1,
            },
            d,
            data,
            states,
            opts,
        ) || vector_score(data, d, states, rows, opts).0 <= 10);
    }
}

/// The update is of the first vector index that is behind.
pub open spec fn updates_behind(
    p: CompactionPriority,
    v: Seq<Vector>,
    states: Seq<VectorState>,
    version: SnapVersion,
) -> bool {
    &&& p matches CompactionPriority::UpdateVectorIndex { table_id, index_id, col_id, rebuild }
    &&& exists|i: int|
        0 <= i < v.len() && index_behind(#[trigger] v[i], states[i], version) && (forall|j: int|
            0 <= j < i ==> !index_behind(#[trigger] v[j], states[j], version)) && table_id
            == v[i].table_id && index_id == v[i].index_id && col_id == v[i].col_id && rebuild
            == states[i].need_rebuild
}

/// What a compaction of all columnar files adds and clears.
pub open spec fn evens_out(
    p: CompactionPriority,
    tables: Seq<i64>,
    kept: Seq<i64>,
    version: i64,
) -> bool {
    &&& p matches CompactionPriority::ColumnarMajor {
        table_ids_to_add,
        table_ids_to_clear,
        is_manual,
        schema_version,
    }
    &&& !is_manual
    &&& schema_version == version
    &&& forall|id: i64| #[trigger]
        table_ids_to_add@.contains(id) <==> tables.contains(id) && !kept.contains(id)
    &&& forall|id: i64| #[trigger]
        table_ids_to_clear@.contains(id) <==> kept.contains(id) && !tables.contains(id)
}

/// Where nothing else is needed, columnar files come next. Tables that the schema and the shard
/// do not both keep as columns are added or cleared. Then level 0 is compacted where it has too
/// many files or the higher score, and then level 1; in its place an index that is behind is
/// updated.
pub proof fn law_columnar_files_come_after_tables(
    data: Data,
    asked: Asked,
    opts: PriorityOptions,
    outdated: i64,
    tables: Seq<i64>,
    states: Seq<VectorState>,
    rows: Seq<TableRows>,
    scores: Scores,
    res: Option<CompactionPriority>,
)
    requires
        priority_of(res) == most_needed(data, asked, opts, outdated, tables, states, rows, scores),
        nothing_due(data, asked),
        !blobs_due(data, scores),
        !columns_wait(data, opts.ignore_columnar_table_load, outdated),
        !l0_outside(data),
        scores.highest is None,
        states.len() == data.vector_indexes.len(),
        !opts.ignore_columnar_table_load,
        data.schema_file is Some,
    ensures
        ({
            let differ = opts.build_columnar && exists|id: i64| #[trigger]
                tables.contains(id) != data.columnar_table_ids.contains(id);
            let version = data.col_levels.levels[1][0].snap();
            if differ {
                res is Some && evens_out(
                    res->0,
                    tables,
                    data.columnar_table_ids,
                    data.schema_file->0.version,
                )
            } else if data.col_levels.levels[0].len() > 32 || scores.col_l0 {
                res == Some(CompactionPriority::ColumnarL0)
            } else if data.col_levels.levels[1].len() > 64 || scores.col_l1 {
                if exists|i: int|
                    0 <= i < data.vector_indexes.len() && index_behind(
                        #[trigger] data.vector_indexes[i],
                        states[i],
                        version,
                    ) {
                    res is Some && updates_behind(res->0, data.vector_indexes, states, version)
                } else {
                    res == Some(CompactionPriority::ColumnarL1)
                }
            } else {
                res is Some ==> res->0 is UpdateVectorIndex
            }
        }),
{
    lemma_due(data, asked);
    lemma_l0_outside(data);
    lemma_columns_that_wait(data, opts.ignore_columnar_table_load, outdated);
    lemma_columnar_needs(data, opts, tables, states, scores);
    lemma_results(data, opts, outdated, tables, states, rows, scores);
    let v = data.vector_indexes;
    let version = data.col_levels.levels[1][0].snap();
    lemma_first_behind(v, states, version);
    let differ = opts.build_columnar && exists|id: i64| #[trigger]
        tables.contains(id) != data.columnar_table_ids.contains(id);
    let behind = exists|i: int|
        0 <= i < v.len() && index_behind(#[trigger] v[i], states[i], version);
    if differ {
        if let Some(
            CompactionPriority::ColumnarMajor { table_ids_to_add, table_ids_to_clear, .. },
        ) = res {
            let kept = data.columnar_table_ids;
            assert(table_ids_to_add@ == table_difference(tables, kept));
            assert(table_ids_to_clear@ == table_difference(kept, tables));
            assert forall|id: i64| #[trigger]
                table_ids_to_add@.contains(id) <==> tables.contains(id) && !kept.contains(id) by {
                law_table_difference(tables, kept, id);
            }
            assert forall|id: i64| #[trigger]
                table_ids_to_clear@.contains(id) <==> kept.contains(id) && !tables.contains(id) by {
                law_table_difference(kept, tables, id);
            }
        }
    } else if behind {
        if let Some(p) = vector_override(v, states, version) {
            let i = choose|i: int|
                0 <= i < v.len() && index_behind(#[trigger] v[i], states[i], version) && (
                forall|j: int|
                    0 <= j < i ==> !index_behind(#[trigger] v[j], states[j], version)) && p == (
                Priority::UpdateVectorIndex {
                    table_id: v[i].table_id,
                    index_id: v[i].index_id,
                    col_id: v[i].col_id,
                    rebuild: states[i].need_rebuild,
                });
            assert(priority_of(res) == Some(p) ==> updates_behind(res->0, v, states, version));
        }
    }
}

/// The update is of the index of the definition.
pub open spec fn is_update_of(
    p: CompactionPriority,
    def: VectorIndexDef,
    data: Data,
    states: Seq<VectorState>,
    opts: VectorIndexBuildOptions,
) -> bool {
    &&& p matches CompactionPriority::UpdateVectorIndex { table_id, index_id, col_id, rebuild }
    &&& table_id == def.table_id
    &&& index_id == def.index_id
    &&& col_id == def.col_id
    &&& rebuild == index_rebuilt(data, def, states, opts)
}

/// Vector indexes come last of all. One is updated if and only if one that the schema defines
/// needs it, and one with files of an old format comes before all others.
pub proof fn law_vector_indexes_come_last(
    data: Data,
    asked: Asked,
    opts: PriorityOptions,
    outdated: i64,
    tables: Seq<i64>,
    states: Seq<VectorState>,
    rows: Seq<TableRows>,
    scores: Scores,
    res: Option<CompactionPriority>,
)
    requires
        priority_of(res) == most_needed(data, asked, opts, outdated, tables, states, rows, scores),
        nothing_due(data, asked),
        !blobs_due(data, scores),
        !columns_wait(data, opts.ignore_columnar_table_load, outdated),
        !l0_outside(data),
        scores.highest is None,
        opts.ignore_columnar_table_load || data.schema_file is None || !(opts.build_columnar
            && exists|id: i64| #[trigger]
            tables.contains(id) != data.columnar_table_ids.contains(id))
            && data.col_levels.levels[0].len() <= 32 && !scores.col_l0
            && data.col_levels.levels[1].len() <= 64 && !scores.col_l1,
        states.len() == data.vector_indexes.len(),
    ensures
        res is Some <==> data.columnar_table_ids.len() > 0 && data.schema_file is Some
            && exists|i: int|
            0 <= i < data.schema_file->0.vector_indexes.len() && index_needs(
                data,
                #[trigger] data.schema_file->0.vector_indexes[i],
                states,
                rows,
                opts.vector,
            ),
        res matches Some(p) ==> {
            let defs = data.schema_file->0.vector_indexes;
            exists|i: int|
                0 <= i < defs.len() && is_update_of(
                    p,
                    #[trigger] defs[i],
                    data,
                    states,
                    opts.vector,
                ) && index_needs(data, defs[i], states, rows, opts.vector) && (index_legacy(
                    data,
                    defs[i],
                    states,
                ) || forall|j: int|
                    0 <= j < defs.len() ==> !index_legacy(data, #[trigger] defs[j], states))
        },
{
    lemma_due(data, asked);
    lemma_l0_outside(data);
    lemma_columns_that_wait(data, opts.ignore_columnar_table_load, outdated);
    lemma_columnar_needs(data, opts, tables, states, scores);
    if data.schema_file is Some {
        let defs = data.schema_file->0.vector_indexes;
        lemma_vector_needs(data, defs, states, rows, opts.vector);
        if let Some(p) = res {
            let q = p@;
            let score = best_vector(data, defs, states, rows, opts.vector).1;
            let i = choose|i: int|
                0 <= i < defs.len() && updates(q, #[trigger] defs[i], data, states, opts.vector)
                    && index_needs(data, defs[i], states, rows, opts.vector) && (score == 20
                    ==> index_legacy(data, defs[i], states));
            assert(is_update_of(p, defs[i], data, states, opts.vector));
        }
    }
}

} // verus!
