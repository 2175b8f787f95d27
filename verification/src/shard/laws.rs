//! What merged, split and loaded shards hold, told by what they were made from.
use vstd::prelude::*;

use crate::buf::content;
use crate::key::{lemma_not_lt, lex_le};
use crate::keyspace::same_keyspace;
use crate::lists::{any_between, lemma_filtered, lemma_joined};
use crate::merge_rule::{law_same_keyspace_keeps_data, leaves};
use crate::pb;
use crate::pb::StorageClassSpec;
use crate::range::Range;
use crate::shard::data::{ids_of_blobs, BlobTable, ColumnarFile, Data, L0Table};
use crate::shard::levels::{
    cf_levels, law_sorted_tables, sorted_tables, tables_max_ts, tables_sorted, SsTable,
};
use crate::shard::merge::{
    can_commit, files_for, is_merged, law_newest_first, newest_first, tables_for, target_data,
    MergeSource,
};
use crate::shard::ops::Shard;

verus! {

/// The table is one that the source opened for the level of the column family.
pub open spec fn opened_for(source: MergeSource, t: SsTable, cf: int, level: int) -> bool {
    exists|i: int|
        0 <= i < source.tables@.len() && source.tables@[i] == t && (
        #[trigger] source.snapshot.table_creates@[i]).cf == cf
            && source.snapshot.table_creates@[i].level == level
}

/// The columnar file is one that the source opened for the level.
pub open spec fn column_opened_for(source: MergeSource, f: ColumnarFile, level: int) -> bool {
    exists|i: int|
        0 <= i < source.col_files@.len() && source.col_files@[i] == f && (
        #[trigger] source.snapshot.columnar_creates@[i]).level == level
}

proof fn lemma_same_elements<A>(a: Seq<A>, b: Seq<A>, x: A)
    requires
        a.to_multiset() == b.to_multiset(),
    ensures
        a.contains(x) == b.contains(x),
{
    broadcast use vstd::seq_lib::group_to_multiset_ensures;

    assert(a.contains(x) == a.to_multiset().contains(x));
    assert(b.contains(x) == b.to_multiset().contains(x));
}

proof fn lemma_tables_for(
    tables: Seq<SsTable>,
    creates: Seq<pb::TableCreate>,
    cf: int,
    level: int,
    t: SsTable,
)
    requires
        creates.len() <= tables.len(),
    ensures
        tables_for(tables, creates, cf, level).contains(t) <==> exists|i: int|
            0 <= i < creates.len() && tables[i] == t && (#[trigger] creates[i]).cf == cf
                && creates[i].level == level,
    decreases creates.len(),
{
    if creates.len() > 0 {
        let init = creates.drop_last();
        let rest = tables_for(tables, init, cf, level);
        let all = tables_for(tables, creates, cf, level);
        lemma_tables_for(tables, init, cf, level, t);
        let n = creates.len() - 1;
        let here = creates[n].cf == cf && creates[n].level == level;
        if here {
            assert(all =~= rest + seq![tables[n]]);
            lemma_joined(rest, seq![tables[n]], t);
            if seq![tables[n]].contains(t) {
                assert(tables[n] == t);
            }
            if tables[n] == t {
                assert(seq![tables[n]][0] == t);
            }
        }
        if rest.contains(t) {
            let i = choose|i: int|
                0 <= i < init.len() && tables[i] == t && (#[trigger] init[i]).cf == cf
                    && init[i].level == level;
            assert(creates[i] == init[i]);
        }
        if exists|i: int|
            0 <= i < creates.len() && tables[i] == t && (#[trigger] creates[i]).cf == cf
                && creates[i].level == level {
            let i = choose|i: int|
                0 <= i < creates.len() && tables[i] == t && (#[trigger] creates[i]).cf == cf
                    && creates[i].level == level;
            if i < n {
                assert(init[i] == creates[i]);
            }
        }
    }
}

proof fn lemma_columns_for(
    files: Seq<ColumnarFile>,
    creates: Seq<pb::ColumnarCreate>,
    level: int,
    f: ColumnarFile,
)
    requires
        creates.len() <= files.len(),
    ensures
        files_for(files, creates, level).contains(f) <==> exists|i: int|
            0 <= i < creates.len() && files[i] == f && (#[trigger] creates[i]).level == level,
    decreases creates.len(),
{
    if creates.len() > 0 {
        let init = creates.drop_last();
        let rest = files_for(files, init, level);
        let all = files_for(files, creates, level);
        lemma_columns_for(files, init, level, f);
        let n = creates.len() - 1;
        if creates[n].level == level {
            assert(all =~= rest + seq![files[n]]);
            lemma_joined(rest, seq![files[n]], f);
            if seq![files[n]].contains(f) {
                assert(files[n] == f);
            }
            if files[n] == f {
                assert(seq![files[n]][0] == f);
            }
        }
        if rest.contains(f) {
            let i = choose|i: int|
                0 <= i < init.len() && files[i] == f && (#[trigger] init[i]).level == level;
            assert(creates[i] == init[i]);
        }
        if exists|i: int|
            0 <= i < creates.len() && files[i] == f && (#[trigger] creates[i]).level == level {
            let i = choose|i: int|
                0 <= i < creates.len() && files[i] == f && (#[trigger] creates[i]).level == level;
            if i < n {
                assert(init[i] == creates[i]);
            }
        }
    }
}

/// The highest timestamp of tables is that of one of them, and none has a higher one.
pub proof fn law_highest_timestamp_of_a_level(tables: Seq<SsTable>)
    ensures
        forall|i: int|
            0 <= i < tables.len() ==> (#[trigger] tables[i]).max_ts <= tables_max_ts(tables),
        tables_max_ts(tables) == 0 || exists|i: int|
            0 <= i < tables.len() && (#[trigger] tables[i]).max_ts == tables_max_ts(tables),
    decreases tables.len(),
{
    if tables.len() > 0 {
        let init = tables.drop_last();
        law_highest_timestamp_of_a_level(init);
        assert(tables[tables.len() - 1] == tables.last());
        assert forall|i: int| 0 <= i < tables.len() implies (#[trigger] tables[i]).max_ts
            <= tables_max_ts(tables) by {
            if i < init.len() {
                assert(init[i].max_ts <= tables_max_ts(init));
            }
        }
        if tables_max_ts(init) != 0 && tables_max_ts(tables) == tables_max_ts(init) {
            let i = choose|i: int|
                0 <= i < init.len() && (#[trigger] init[i]).max_ts == tables_max_ts(init);
            assert(tables[i].max_ts == tables_max_ts(tables));
        }
    }
}

/// Merged data has, at each level of each column family, the tables that the target has there
/// and those that the source opened for it, in the order of their lowest keys, and no others.
pub proof fn law_merged_levels_have_the_tables_of_both(
    target: Data,
    source: MergeSource,
    range: Range,
    inner_key_off: usize,
    ids: Seq<i64>,
    res: Data,
    cf: int,
    l: int,
)
    requires
        source.wf(),
        res.reorders_columns(target.merged(source, range, inner_key_off, ids)),
        0 <= cf < 3,
        0 <= l < 3 - cf,
        target.cfs.len() == 3,
        target.cfs[cf].len() == 3 - cf,
    ensures
        res.cfs.len() == 3,
        res.cfs[cf].len() == 3 - cf,
        res.cfs[cf][l].level == l + 1,
        forall|t: SsTable| #[trigger]
            res.cfs[cf][l].tables.contains(t) <==> target.cfs[cf][l].tables.contains(t)
                || opened_for(source, t, cf, l + 1),
        tables_sorted(res.cfs[cf][l].tables),
        forall|i: int|
            0 <= i < res.cfs[cf][l].tables.len() ==> (#[trigger] res.cfs[cf][l].tables[i]).max_ts
                <= res.cfs[cf][l].max_ts,
{
    let more = tables_for(source.tables@, source.snapshot.table_creates@, cf, l + 1);
    let all = target.cfs[cf][l].tables + more;
    law_sorted_tables(all);
    let tables = res.cfs[cf][l].tables;
    assert(tables == sorted_tables(all));
    law_highest_timestamp_of_a_level(tables);
    assert forall|t: SsTable| #[trigger] tables.contains(t) <==> target.cfs[cf][l].tables.contains(
        t,
    ) || opened_for(source, t, cf, l + 1) by {
        lemma_same_elements(tables, all, t);
        lemma_joined(target.cfs[cf][l].tables, more, t);
        lemma_tables_for(source.tables@, source.snapshot.table_creates@, cf, l + 1, t);
    }
}

/// Merged data has the tables of level 0 of both, the newest first; the memory tables and lock
/// files of the target; the blob tables of both, the source's for one id; the tables of both
/// that are not loaded; and the columnar files of both that may have keys of the tables that
/// are kept as columns.
pub proof fn law_merged_data_has_the_files_of_both(
    target: Data,
    source: MergeSource,
    range: Range,
    inner_key_off: usize,
    ids: Seq<i64>,
    res: Data,
)
    requires
        source.wf(),
        target.col_levels.levels.len() == 3,
        target.update_counter < u64::MAX,
        source.snapshot.base_version + source.snapshot.data_sequence <= u64::MAX,
        res.reorders_columns(target.merged(source, range, inner_key_off, ids)),
    ensures
        res.range == range,
        res.inner_key_off == inner_key_off,
        res.mem_tbls == target.mem_tbls,
        res.lock_txn_files == target.lock_txn_files,
        forall|t: L0Table| #[trigger]
            res.l0_tbls.contains(t) <==> target.l0_tbls.contains(t) || source.l0_tbls@.contains(t),
        res.l0_tbls.len() == target.l0_tbls.len() + source.l0_tbls@.len(),
        forall|i: int, j: int|
            0 <= i < j < res.l0_tbls.len() ==> (#[trigger] res.l0_tbls[i]).version.version >= (
            #[trigger] res.l0_tbls[j]).version.version,
        forall|b: BlobTable| #[trigger]
            res.blob_tbls.contains(b) <==> source.blob_tbls@.contains(b) || (
            target.blob_tbls.contains(b) && !blob_named(source.blob_tbls@, b.id)),
        forall|id: u64| #[trigger]
            res.unloaded_tbls.contains_key(id) <==> target.unloaded_tbls.contains_key(id)
                || source.unloaded_tbls@.contains_key(id),
        forall|id: u64|
            target.unloaded_tbls.contains_key(id) ==> #[trigger] res.unloaded_tbls[id]
                == target.unloaded_tbls[id],
        forall|id: u64|
            !target.unloaded_tbls.contains_key(id) && source.unloaded_tbls@.contains_key(id)
                ==> #[trigger] res.unloaded_tbls[id] == source.unloaded_tbls@[id],
        res.col_levels.levels.len() == 3,
        forall|l: int, f: ColumnarFile|
            0 <= l < 3 ==> (#[trigger] res.col_levels.levels[l].contains(f) <==> (
            target.col_levels.levels[l].contains(f) || column_opened_for(source, f, l))
                && one_between(ids, f.table_ids)),
        ids.len() > 0 ==> res.col_levels.unconverted_l0s == target.col_levels.unconverted_l0s,
        ids.len() == 0 ==> res.col_levels.unconverted_l0s.len() == 0,
        res.col_levels.l2_snap_version.version >= target.col_levels.l2_snap_version.version,
        res.col_levels.l2_snap_version.version >= source.snapshot.columnar_l2_snap_version,
        res.col_levels.l2_snap_version == target.col_levels.l2_snap_version
            || res.col_levels.l2_snap_version.version == source.snapshot.columnar_l2_snap_version,
        res.columnar_table_ids == ids,
        res.persisted_version.version >= target.persisted_version.version,
        res.persisted_version.version >= source.snapshot.base_version
            + source.snapshot.data_sequence,
        res.persisted_version == target.persisted_version || res.persisted_version.version
            == source.snapshot.base_version + source.snapshot.data_sequence,
        target.schema_file is Some || source.schema_file is None ==> res.schema_file
            == target.schema_file && res.schema_version == target.schema_version,
        target.schema_file is None && source.schema_file is Some ==> res.schema_file is Some
            && res.schema_file->0.file_id == (source.schema_file->0).file_id && res.schema_version
            == (source.schema_file->0).version,
        res.fts_l0_files == target.fts_l0_files && res.fts_l1_files == target.fts_l1_files
            && res.fts_l2_files == target.fts_l2_files,
        res.update_counter == target.update_counter + 1,
{
    let all = target.l0_tbls + source.l0_tbls@;
    law_newest_first(all);
    assert(res.l0_tbls == newest_first(all));
    assert forall|t: L0Table| #[trigger] res.l0_tbls.contains(t) <==> target.l0_tbls.contains(t)
        || source.l0_tbls@.contains(t) by {
        lemma_same_elements(res.l0_tbls, all, t);
        lemma_joined(target.l0_tbls, source.l0_tbls@, t);
    }
    assert(res.l0_tbls.len() == all.len()) by {
        broadcast use vstd::seq_lib::group_to_multiset_ensures;

        assert(res.l0_tbls.to_multiset().len() == all.to_multiset().len());
    }
    assert forall|b: BlobTable| #[trigger] res.blob_tbls.contains(
        b,
    ) <==> source.blob_tbls@.contains(b) || (target.blob_tbls.contains(b) && !blob_named(
        source.blob_tbls@,
        b.id,
    )) by {
        let keep = |t: BlobTable| !ids_of_blobs(source.blob_tbls@).contains(t.id);
        lemma_joined(target.blob_tbls.filter(keep), source.blob_tbls@, b);
        lemma_filtered(target.blob_tbls, keep, b);
        lemma_blob_ids(source.blob_tbls@, b.id);
    }
    assert forall|l: int, f: ColumnarFile| 0 <= l < 3 implies (
    #[trigger] res.col_levels.levels[l].contains(f) <==> (target.col_levels.levels[l].contains(f)
        || column_opened_for(source, f, l)) && one_between(ids, f.table_ids)) by {
        let more = files_for(source.col_files@, source.snapshot.columnar_creates@, l);
        let both = target.col_levels.levels[l] + more;
        let keep = |f: ColumnarFile| any_between(ids, f.table_ids.min, f.table_ids.max);
        assert(res.col_levels.levels[l].to_multiset() == both.filter(keep).to_multiset());
        lemma_same_elements(res.col_levels.levels[l], both.filter(keep), f);
        lemma_filtered(both, keep, f);
        lemma_joined(target.col_levels.levels[l], more, f);
        lemma_columns_for(source.col_files@, source.snapshot.columnar_creates@, l, f);
    }
}

/// A blob table of the list has the id.
pub open spec fn blob_named(s: Seq<BlobTable>, id: u64) -> bool {
    exists|i: int| 0 <= i < s.len() && (#[trigger] s[i]).id == id
}

/// One of the tables is in the span.
pub open spec fn one_between(ids: Seq<i64>, span: pb::TableIdSpan) -> bool {
    exists|i: int| 0 <= i < ids.len() && span.min <= #[trigger] ids[i] <= span.max
}

proof fn lemma_blob_ids(s: Seq<BlobTable>, id: u64)
    ensures
        ids_of_blobs(s).contains(id) == blob_named(s, id),
{
    let ids = ids_of_blobs(s);
    if ids.contains(id) {
        let i = choose|i: int| 0 <= i < ids.len() && ids[i] == id;
        assert(s[i].id == id);
    }
    if blob_named(s, id) {
        let i = choose|i: int| 0 <= i < s.len() && (#[trigger] s[i]).id == id;
        assert(ids[i] == id);
    }
}

/// A merged shard of one keyspace covers the ranges of both and has the tables of both.
pub proof fn law_merged_shard_has_both(
    target: Shard,
    source: MergeSource,
    sequence: u64,
    ids: Seq<i64>,
    schedule_at: u64,
    class: StorageClassSpec,
    res: Shard,
    cf: int,
    l: int,
)
    requires
        can_commit(target, source, sequence),
        is_merged(target, source, sequence, ids, schedule_at, class, res),
        same_keyspace(content(source.snapshot.outer_start), target.range@.start),
        0 <= cf < 3,
        0 <= l < 3 - cf,
    ensures
        lex_le(res.range@.start, target.range@.start),
        lex_le(res.range@.start, content(source.snapshot.outer_start)),
        res.range@.start == target.range@.start || res.range@.start == content(
            source.snapshot.outer_start,
        ),
        lex_le(target.range@.end, res.range@.end),
        lex_le(content(source.snapshot.outer_end), res.range@.end),
        res.range@.end == target.range@.end || res.range@.end == content(source.snapshot.outer_end),
        res.id == target.id,
        res.data@.range == res.range@,
        res.data@.mem_tbls == target.data@.mem_tbls,
        forall|t: SsTable| #[trigger]
            res.data@.cfs[cf][l].tables.contains(t) <==> target.data@.cfs[cf][l].tables.contains(t)
                || opened_for(source, t, cf, l + 1),
        forall|t: L0Table| #[trigger]
            res.data@.l0_tbls.contains(t) <==> target.data@.l0_tbls.contains(t)
                || source.l0_tbls@.contains(t),
        forall|i: int, f: ColumnarFile|
            0 <= i < 3 ==> (#[trigger] res.data@.col_levels.levels[i].contains(f) <==> (
            target.data@.col_levels.levels[i].contains(f) || column_opened_for(source, f, i))
                && one_between(ids, f.table_ids)),
{
    let start = content(source.snapshot.outer_start);
    law_same_keyspace_keeps_data(start, target.range@.start);
    assert(target.data@.cfs[cf].len() == cf_levels(cf));
    law_merged_levels_have_the_tables_of_both(
        target.data@,
        source,
        res.range@,
        target.data@.inner_key_off,
        ids,
        res.data@,
        cf,
        l,
    );
    law_merged_data_has_the_files_of_both(
        target.data@,
        source,
        res.range@,
        target.data@.inner_key_off,
        ids,
        res.data@,
    );
    lemma_not_lt(start, target.range@.start);
    lemma_not_lt(target.range@.end, content(source.snapshot.outer_end));
}

/// Where the source is of a keyspace that is given up, its data is not taken: the shard keeps
/// the files of the target.
pub proof fn law_given_up_source_brings_nothing(
    target: Shard,
    source: MergeSource,
    sequence: u64,
    ids: Seq<i64>,
    schedule_at: u64,
    class: StorageClassSpec,
    res: Shard,
)
    requires
        can_commit(target, source, sequence),
        is_merged(target, source, sequence, ids, schedule_at, class, res),
        leaves(content(source.snapshot.outer_start), target.range@.start),
        !leaves(target.range@.start, content(source.snapshot.outer_start)),
    ensures
        res.data@.cfs == target.data@.cfs,
        res.data@.l0_tbls == target.data@.l0_tbls,
        res.data@.mem_tbls == target.data@.mem_tbls,
        res.data@.blob_tbls == target.data@.blob_tbls,
        res.data@.range == res.range@,
{
}

/// Where the target is of a keyspace that is given up, its tables are dropped: the shard has
/// those of the source alone.
pub proof fn law_given_up_target_keeps_nothing(
    target: Shard,
    source: MergeSource,
    sequence: u64,
    ids: Seq<i64>,
    schedule_at: u64,
    class: StorageClassSpec,
    res: Shard,
    cf: int,
    l: int,
)
    requires
        can_commit(target, source, sequence),
        is_merged(target, source, sequence, ids, schedule_at, class, res),
        !leaves(content(source.snapshot.outer_start), target.range@.start),
        leaves(target.range@.start, content(source.snapshot.outer_start)),
        0 <= cf < 3,
        0 <= l < 3 - cf,
    ensures
        forall|t: SsTable| #[trigger]
            res.data@.cfs[cf][l].tables.contains(t) <==> opened_for(source, t, cf, l + 1),
        forall|t: L0Table| #[trigger]
            res.data@.l0_tbls.contains(t) <==> source.l0_tbls@.contains(t),
{
    let base = target_data(target, source);
    law_merged_levels_have_the_tables_of_both(
        base,
        source,
        res.range@,
        source.snapshot.inner_key_off as usize,
        ids,
        res.data@,
        cf,
        l,
    );
    law_merged_data_has_the_files_of_both(
        base,
        source,
        res.range@,
        source.snapshot.inner_key_off as usize,
        ids,
        res.data@,
    );
}

} // verus!
