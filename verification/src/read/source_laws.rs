//! Which files a reader merges, reads and hands out, told by what they hold.
use vstd::prelude::*;

use crate::bound::{Bound, BoundedDataSet};
use crate::buf::content;
use crate::file_meta::{FileType, SnapVersion};
use crate::ia::segment::FileSegmentIdent;
use crate::key::{lex_le, lex_lt};
use crate::keyspace::{inner_end_of, inner_of};
use crate::lists::{lemma_filtered, lemma_joined};
use crate::pb::{ColumnarCreate, Snapshot, TableCreate};
use crate::read::blocks::{tables_among, BlockResult, TableCtx};
use crate::read::change_set::{
    cf_creates, col_level_creates, columnar_create, columnar_creates, has_data_in, hit, ids_among,
    l0s_asked, level_creates, snapshot_for, table_asked, table_create, table_creates, KeyRange,
    SnapInfo,
};
use crate::read::columnar::{
    files_holding, level_ids, marked, marked_ids, remote_blobs, remote_in_level, remote_tables,
};
use crate::read::get::read_ts;
use crate::read::remote_segments::{segments_to, touched_to, Touched};
use crate::read::snap::leveled;
use crate::read::sources::{l0s_since, levels_since, mems_since, tables_since, txn_starts};
use crate::shard::data::{BlobTable, ColumnarFile, L0Table, Mem, ShardData, Txn};
use crate::shard::levels::{range_bound, Level, SsTable};

verus! {

proof fn lemma_pushed<A>(s: Seq<A>, x: A, y: A)
    ensures
        s.push(x).contains(y) == (s.contains(y) || x == y),
{
    assert(s.push(x) =~= s + seq![x]);
    lemma_joined(s, seq![x], y);
    assert(seq![x][0] == x);
    if seq![x].contains(y) {
        assert(x == y);
    }
}

/// What is collected are the places, or ids, of all that is marked.
pub proof fn law_marked_sources_are_collected(
    ids: Seq<u64>,
    marks: Seq<bool>,
    n: int,
    p: usize,
    id: u64,
)
    requires
        0 <= n <= marks.len(),
        n <= usize::MAX,
        ids.len() == marks.len(),
    ensures
        marked(marks, n).contains(p) <==> p < n && marks[p as int],
        marked_ids(ids, marks, n).contains(id) <==> exists|i: int|
            0 <= i < n && #[trigger] marks[i] && ids[i] == id,
    decreases n,
{
    if n > 0 {
        law_marked_sources_are_collected(ids, marks, n - 1, p, id);
        lemma_pushed(marked(marks, n - 1), (n - 1) as usize, p);
        lemma_pushed(marked_ids(ids, marks, n - 1), ids[n - 1], id);
        let holds = marks[n - 1];
        assert(holds == marks[n - 1]);
    }
}

/// Of columnar files, those are read that hold the table and are not among the others.
pub proof fn law_files_that_hold_the_table_are_read(
    files: Seq<ColumnarFile>,
    holding: Seq<u64>,
    but: Seq<u64>,
    n: int,
    id: u64,
)
    requires
        0 <= n <= files.len(),
    ensures
        files_holding(files, holding, but, n).contains(id) <==> holding.contains(id)
            && !but.contains(id) && exists|i: int|
            0 <= i < n && (#[trigger] files[i]).id == id,
    decreases n,
{
    if n > 0 {
        law_files_that_hold_the_table_are_read(files, holding, but, n - 1, id);
        let rest = files_holding(files, holding, but, n - 1);
        lemma_pushed(rest, files[n - 1].id, id);
        if exists|i: int| 0 <= i < n && (#[trigger] files[i]).id == id {
            let i = choose|i: int| 0 <= i < n && (#[trigger] files[i]).id == id;
            if i < n - 1 {
                assert(files[i].id == id);
            }
        }
    }
}

/// All tables of all levels are read.
pub proof fn law_all_tables_are_read(levels: Seq<Level>, n: int, id: u64)
    requires
        0 <= n <= levels.len(),
    ensures
        level_ids(levels, n).contains(id) <==> exists|l: int, i: int|
            0 <= l < n && 0 <= i < levels[l].tables.len() && (#[trigger] levels[l].tables[i]).id
                == id,
    decreases n,
{
    if n > 0 {
        law_all_tables_are_read(levels, n - 1, id);
        let last = levels[n - 1].tables;
        let ids = Seq::new(last.len(), |i: int| last[i].id);
        lemma_joined(level_ids(levels, n - 1), ids, id);
        if ids.contains(id) {
            let i = choose|i: int| 0 <= i < ids.len() && ids[i] == id;
            assert(levels[n - 1].tables[i].id == id);
        }
        if exists|l: int, i: int|
            0 <= l < n && 0 <= i < levels[l].tables.len() && (#[trigger] levels[l].tables[i]).id
                == id {
            let (l, i) = choose|l: int, i: int|
                0 <= l < n && 0 <= i < levels[l].tables.len() && (
                #[trigger] levels[l].tables[i]).id == id;
            if l == n - 1 {
                assert(ids[i] == id);
            }
        }
    }
}

/// The table has a key of the bound in common and is kept remote.
pub open spec fn is_remote_within(t: SsTable, b: Bound) -> bool {
    !t.sync && t.bound().overlaps(b)
}

proof fn lemma_remote_level(tables: Seq<SsTable>, b: Bound, n: int, id: u64)
    requires
        0 <= n <= tables.len(),
    ensures
        remote_in_level(tables, b, n).contains(id) <==> exists|i: int|
            0 <= i < n && (#[trigger] tables[i]).id == id && is_remote_within(tables[i], b),
    decreases n,
{
    if n > 0 {
        lemma_remote_level(tables, b, n - 1, id);
        lemma_pushed(remote_in_level(tables, b, n - 1), tables[n - 1].id, id);
        let t = tables[n - 1];
        assert(is_remote_within(t, b) == (!t.sync && t.bound().overlaps(b)));
        if exists|i: int|
            0 <= i < n && (#[trigger] tables[i]).id == id && is_remote_within(tables[i], b) {
            let i = choose|i: int|
                0 <= i < n && (#[trigger] tables[i]).id == id && is_remote_within(tables[i], b);
            if i < n - 1 {
                assert(tables[i].id == id);
            }
        }
    }
}

/// A read waits for the tables of committed data that are kept remote and have a key of the
/// bound, and for the blob tables that are kept remote; for no others.
pub proof fn law_remote_tables_of_the_bound(
    levels: Seq<Level>,
    b: Bound,
    n: int,
    blobs: Seq<BlobTable>,
    sync: Seq<bool>,
    m: int,
    id: u64,
)
    requires
        0 <= n <= levels.len(),
        0 <= m <= blobs.len(),
        sync.len() == blobs.len(),
    ensures
        remote_tables(levels, b, n).contains(id) <==> exists|l: int, i: int|
            0 <= l < n && 0 <= i < levels[l].tables.len() && (#[trigger] levels[l].tables[i]).id
                == id && is_remote_within(levels[l].tables[i], b),
        remote_blobs(blobs, sync, m).contains(id) <==> exists|i: int|
            0 <= i < m && (#[trigger] blobs[i]).id == id && !sync[i],
    decreases n + m,
{
    if n > 0 {
        law_remote_tables_of_the_bound(levels, b, n - 1, blobs, sync, 0, id);
        let last = levels[n - 1].tables;
        lemma_remote_level(last, b, last.len() as int, id);
        lemma_joined(
            remote_tables(levels, b, n - 1),
            remote_in_level(last, b, last.len() as int),
            id,
        );
        if remote_in_level(last, b, last.len() as int).contains(id) {
            let i = choose|i: int|
                0 <= i < last.len() && (#[trigger] last[i]).id == id && is_remote_within(
                    last[i],
                    b,
                );
            assert(levels[n - 1].tables[i].id == id);
        }
        if exists|l: int, i: int|
            0 <= l < n && 0 <= i < levels[l].tables.len() && (#[trigger] levels[l].tables[i]).id
                == id && is_remote_within(levels[l].tables[i], b) {
            let (l, i) = choose|l: int, i: int|
                0 <= l < n && 0 <= i < levels[l].tables.len() && (
                #[trigger] levels[l].tables[i]).id == id && is_remote_within(
                    levels[l].tables[i],
                    b,
                );
            if l == n - 1 {
                assert(last[i].id == id);
            }
        }
    }
    if m > 0 {
        law_remote_tables_of_the_bound(levels, b, 0, blobs, sync, m - 1, id);
        lemma_pushed(remote_blobs(blobs, sync, m - 1), blobs[m - 1].id, id);
        if exists|i: int| 0 <= i < m && (#[trigger] blobs[i]).id == id && !sync[i] {
            let i = choose|i: int| 0 <= i < m && (#[trigger] blobs[i]).id == id && !sync[i];
            if i < m - 1 {
                assert(blobs[i].id == id);
            }
        }
    }
}

/// Something was committed after the time, or there is none.
pub open spec fn after_since(top: u64, since: Option<u64>) -> bool {
    since is None || top > since->0
}

/// A walk merges the memory tables, and the tables of level 0, that have something newer than
/// the time, and no others; and all lock files but that of the transaction to be left out.
pub proof fn law_newer_sources_are_merged(
    mems: Seq<Mem>,
    l0s: Seq<L0Table>,
    tops: Seq<Option<u64>>,
    files: Seq<Txn>,
    skip: Option<u64>,
    since: Option<u64>,
    n: int,
    p: usize,
    id: u64,
)
    requires
        0 <= n <= usize::MAX,
    ensures
        n <= mems.len() ==> (mems_since(mems, since, n).contains(p) <==> p < n && after_since(
            mems[p as int].max_ts,
            since,
        )),
        n <= l0s.len() && l0s.len() == tops.len() ==> (l0s_since(l0s, tops, since, n).contains(id)
            <==> exists|i: int|
            0 <= i < n && (#[trigger] l0s[i]).id == id && tops[i] is Some && after_since(
                tops[i]->0,
                since,
            )),
        n <= files.len() ==> (txn_starts(files, skip, n).contains(id) <==> skip != Some(id)
            && exists|i: int| 0 <= i < n && (#[trigger] files[i]).start_ts == id),
    decreases n,
{
    if n > 0 {
        law_newer_sources_are_merged(mems, l0s, tops, files, skip, since, n - 1, p, id);
        lemma_pushed(mems_since(mems, since, n - 1), (n - 1) as usize, p);
        lemma_pushed(l0s_since(l0s, tops, since, n - 1), l0s[n - 1].id, id);
        lemma_pushed(txn_starts(files, skip, n - 1), files[n - 1].start_ts, id);
        if exists|i: int|
            0 <= i < n && (#[trigger] l0s[i]).id == id && tops[i] is Some && after_since(
                tops[i]->0,
                since,
            ) {
            let i = choose|i: int|
                0 <= i < n && (#[trigger] l0s[i]).id == id && tops[i] is Some && after_since(
                    tops[i]->0,
                    since,
                );
            if i < n - 1 {
                assert(l0s[i].id == id);
            }
        }
        if exists|i: int| 0 <= i < n && (#[trigger] files[i]).start_ts == id {
            let i = choose|i: int| 0 <= i < n && (#[trigger] files[i]).start_ts == id;
            if i < n - 1 {
                assert(files[i].start_ts == id);
            }
        }
    }
}

proof fn lemma_tables_since(tables: Seq<SsTable>, since: Option<u64>, n: int, id: u64)
    requires
        0 <= n <= tables.len(),
    ensures
        tables_since(tables, since, n).contains(id) <==> exists|i: int|
            0 <= i < n && (#[trigger] tables[i]).id == id && after_since(tables[i].max_ts, since),
    decreases n,
{
    if n > 0 {
        lemma_tables_since(tables, since, n - 1, id);
        lemma_pushed(tables_since(tables, since, n - 1), tables[n - 1].id, id);
        if exists|i: int|
            0 <= i < n && (#[trigger] tables[i]).id == id && after_since(tables[i].max_ts, since) {
            let i = choose|i: int|
                0 <= i < n && (#[trigger] tables[i]).id == id && after_since(
                    tables[i].max_ts,
                    since,
                );
            if i < n - 1 {
                assert(tables[i].id == id);
            }
        }
    }
}

/// Every table that a walk merges of the levels is a table of one of them that has something
/// newer than the time.
pub proof fn law_merged_tables_are_newer(
    levels: Seq<Level>,
    since: Option<u64>,
    n: int,
    m: int,
    id: u64,
)
    requires
        0 <= n <= levels.len(),
        0 <= m < levels_since(levels, since, n).len(),
        levels_since(levels, since, n)[m].contains(id),
    ensures
        exists|l: int, i: int|
            0 <= l < n && 0 <= i < levels[l].tables.len() && (#[trigger] levels[l].tables[i]).id
                == id && after_since(levels[l].tables[i].max_ts, since),
    decreases n,
{
    let rest = levels_since(levels, since, n - 1);
    let all = levels_since(levels, since, n);
    if n > 0 {
        if m < rest.len() {
            assert(all[m] == rest[m]);
            law_merged_tables_are_newer(levels, since, n - 1, m, id);
        } else {
            let tables = levels[n - 1].tables;
            lemma_tables_since(tables, since, tables.len() as int, id);
            let i = choose|i: int|
                0 <= i < tables.len() && (#[trigger] tables[i]).id == id && after_since(
                    tables[i].max_ts,
                    since,
                );
            assert(levels[n - 1].tables[i].id == id);
        }
    }
}

/// All columnar files are told, each with its level.
pub proof fn law_columnar_files_are_told_with_their_level(
    levels: Seq<Seq<ColumnarFile>>,
    n: int,
    f: ColumnarFile,
    l: usize,
)
    requires
        0 <= n <= levels.len(),
        n <= usize::MAX,
    ensures
        leveled(levels, n).contains((f, l)) <==> l < n && levels[l as int].contains(f),
    decreases n,
{
    if n > 0 {
        law_columnar_files_are_told_with_their_level(levels, n - 1, f, l);
        let last = levels[n - 1];
        let more = Seq::new(last.len(), |i: int| (last[i], (n - 1) as usize));
        lemma_joined(leveled(levels, n - 1), more, (f, l));
        if more.contains((f, l)) {
            let i = choose|i: int| 0 <= i < more.len() && more[i] == (f, l);
            assert(last[i] == f);
        }
        if l == n - 1 && last.contains(f) {
            let i = choose|i: int| 0 <= i < last.len() && last[i] == f;
            assert(more[i] == (f, l));
        }
    }
}

/// The segments of files are those of each, with their type, and as many are touched as each
/// says.
pub proof fn law_segments_of_all_files(
    files: Seq<Touched>,
    ft: FileType,
    n: int,
    s: FileSegmentIdent,
    t: FileType,
)
    requires
        0 <= n <= files.len(),
        forall|i: int| 0 <= i < files.len() ==> (#[trigger] files[i]) is Ok,
    ensures
        segments_to(files, ft, n).contains((s, t)) <==> t == ft && exists|i: int|
            0 <= i < n && (#[trigger] files[i])->Ok_0.0@.contains(s),
        n > 0 ==> touched_to(files, n) == touched_to(files, n - 1) + files[n - 1]->Ok_0.1,
        touched_to(files, 0) == 0,
    decreases n,
{
    if n > 0 {
        law_segments_of_all_files(files, ft, n - 1, s, t);
        let last = files[n - 1]->Ok_0.0@;
        let more = Seq::new(last.len(), |i: int| (last[i], ft));
        lemma_joined(segments_to(files, ft, n - 1), more, (s, t));
        if more.contains((s, t)) {
            let i = choose|i: int| 0 <= i < more.len() && more[i] == (s, t);
            assert(last[i] == s);
            assert(files[n - 1]->Ok_0.0@.contains(s));
        }
        if t == ft && last.contains(s) {
            let i = choose|i: int| 0 <= i < last.len() && last[i] == s;
            assert(more[i] == (s, t));
        }
        if exists|i: int| 0 <= i < n && (#[trigger] files[i])->Ok_0.0@.contains(s) {
            let i = choose|i: int| 0 <= i < n && (#[trigger] files[i])->Ok_0.0@.contains(s);
            if i == n - 1 {
                assert(last.contains(s));
            }
        }
    }
}

/// A reader reads at the version that it asks for. Where it asks for none, committed data and
/// other data of transactions are read at the time that was set, or all of it; locks at the
/// version of the snapshot.
pub proof fn law_version_that_is_read(
    cf: int,
    asked: Option<u64>,
    managed_ts: u64,
    snap_version: SnapVersion,
)
    requires
        0 <= cf < 3,
    ensures
        asked is Some ==> read_ts(cf, asked, managed_ts, snap_version) == asked->0,
        asked is None && cf == 1 ==> read_ts(cf, asked, managed_ts, snap_version)
            == snap_version.version,
        asked is None && cf != 1 && managed_ts != 0 ==> read_ts(
            cf,
            asked,
            managed_ts,
            snap_version,
        ) == managed_ts,
        asked is None && cf != 1 && managed_ts == 0 ==> read_ts(
            cf,
            asked,
            managed_ts,
            snap_version,
        ) == u64::MAX,
{
}

/// The tables that are read are those that are asked for and not empty.
pub proof fn law_tables_that_are_not_empty_are_read(
    tables: Seq<TableCtx>,
    ids: Seq<i64>,
    t: TableCtx,
)
    ensures
        tables_among(tables, ids).contains(t) <==> tables.contains(t) && ids.contains(t.table_id),
{
    lemma_filtered(tables, |t: TableCtx| ids.contains(t.table_id), t);
}

/// What is taken out of a block is not there a second time, and all other columns still are. A
/// column is the handle, the version or one of the others.
pub proof fn law_column_is_taken_once(b: BlockResult, after: BlockResult, col_id: i64, other: i64)
    requires
        b.column_taken(after, col_id),
    ensures
        after.column(col_id).len() == 0,
        col_id == b.handle_column_id ==> b.column(col_id) == b.handle_data@,
        col_id == b.version_column_id && col_id != b.handle_column_id ==> b.column(col_id)
            == b.version_data@,
        col_id != b.version_column_id && col_id != b.handle_column_id
            && b.pk_handle_ids@.contains(col_id) ==> b.column(col_id) == b.handle_data@,
        col_id != b.version_column_id && col_id != b.handle_column_id
            && !b.pk_handle_ids@.contains(col_id) && b.columns@.contains_key(col_id)
            ==> b.column(col_id) == b.columns@[col_id]@,
        other != col_id && !(b.is_handle(col_id) && b.is_handle(other)) ==> after.column(other)
            == b.column(other),
        after.read_count == b.read_count,
        after.table_id == b.table_id,
{
}

/// The keys from `smallest` to `biggest` reach into one of the ranges.
pub open spec fn asked_for(b: Bound, ranges: Seq<KeyRange>) -> bool {
    exists|i: int|
        0 <= i < ranges.len() && lex_lt(
            b.lower,
            inner_end_of(content((#[trigger] ranges[i]).1)),
        ) && lex_le(inner_of(content(ranges[i].0)), b.upper)
}

proof fn lemma_hit(b: Bound, ranges: Seq<KeyRange>)
    requires
        b.inclusive,
    ensures
        hit(b, ranges) == asked_for(b, ranges),
{
    if hit(b, ranges) {
        let i = choose|i: int|
            0 <= i < ranges.len() && b.overlaps(
                range_bound(
                    content((#[trigger] ranges[i]).0),
                    content(ranges[i].1),
                ),
            );
        assert(asked_for(b, ranges));
    }
    if asked_for(b, ranges) {
        let i = choose|i: int|
            0 <= i < ranges.len() && lex_lt(
                b.lower,
                inner_end_of(content((#[trigger] ranges[i]).1)),
            ) && lex_le(inner_of(content(ranges[i].0)), b.upper);
        assert(hit(b, ranges));
    }
}

proof fn lemma_l0s_asked(
    l0s: Seq<L0Table>,
    sizes: Seq<Option<u64>>,
    ranges: Seq<KeyRange>,
    write_only: bool,
    t: L0Table,
)
    ensures
        l0s_asked(l0s, sizes, ranges, write_only).contains(t) <==> exists|i: int|
            0 <= i < l0s.len() && #[trigger] l0s[i] == t && asked_for(t.bound(), ranges) && (
            write_only ==> sizes[i] is Some && sizes[i]->0 != 0),
    decreases l0s.len(),
{
    if l0s.len() > 0 {
        let init = l0s.drop_last();
        let n = l0s.len() - 1;
        let last = l0s.last();
        lemma_l0s_asked(init, sizes, ranges, write_only, t);
        lemma_pushed(l0s_asked(init, sizes, ranges, write_only), last, t);
        lemma_hit(last.bound(), ranges);
        assert(l0s[n] == last);
        if l0s_asked(init, sizes, ranges, write_only).contains(t) {
            let i = choose|i: int|
                0 <= i < init.len() && #[trigger] init[i] == t && asked_for(t.bound(), ranges) && (
                write_only ==> sizes[i] is Some && sizes[i]->0 != 0);
            assert(l0s[i] == t);
        }
        if exists|i: int|
            0 <= i < l0s.len() && #[trigger] l0s[i] == t && asked_for(t.bound(), ranges) && (
            write_only ==> sizes[i] is Some && sizes[i]->0 != 0) {
            let i = choose|i: int|
                0 <= i < l0s.len() && #[trigger] l0s[i] == t && asked_for(t.bound(), ranges) && (
                write_only ==> sizes[i] is Some && sizes[i]->0 != 0);
            if i < n {
                assert(init[i] == t);
            }
        }
    }
}

/// What is handed out tells of each table of level 0 that is asked for, of each blob table and
/// of each table without columnar file that is asked for; of no others. A table of level 0 is
/// asked for where it has keys of a range and, where only committed data is wanted, some of
/// that.
pub proof fn law_asked_files_are_handed_out(
    snap: Snapshot,
    info: SnapInfo,
    data: ShardData,
    sizes: Seq<Option<u64>>,
    offsets: Map<u64, u32>,
    ranges: Seq<KeyRange>,
    holding: Seq<Vec<u64>>,
    write_only: bool,
    id: u64,
)
    requires
        snapshot_for(snap, info, data, sizes, offsets, ranges, holding, write_only),
    ensures
        (exists|i: int| 0 <= i < snap.l0_creates@.len() && (#[trigger] snap.l0_creates@[i]).id == id)
            <==> exists|i: int|
            0 <= i < data@.l0_tbls.len() && (#[trigger] data@.l0_tbls[i]).id == id && asked_for(
                data@.l0_tbls[i].bound(),
                ranges,
            ) && (write_only ==> sizes[i] is Some && sizes[i]->0 != 0),
        snap.blob_creates@.len() == data@.blob_tbls.len(),
        forall|i: int|
            0 <= i < data@.blob_tbls.len() ==> (#[trigger] snap.blob_creates@[i]).id
                == data@.blob_tbls[i].id && snap.blob_creates@[i].smallest
                == data@.blob_tbls[i].smallest && snap.blob_creates@[i].biggest
                == data@.blob_tbls[i].biggest,
        forall|i: int|
            0 <= i < snap.l0_creates@.len() ==> exists|j: int|
                0 <= j < data@.l0_tbls.len() && (#[trigger] snap.l0_creates@[i]).id == (
                #[trigger] data@.l0_tbls[j]).id && snap.l0_creates@[i].smallest
                    == data@.l0_tbls[j].smallest && snap.l0_creates@[i].biggest
                    == data@.l0_tbls[j].biggest,
        snap.unconverted_l0s@.contains(id) <==> (exists|i: int|
            0 <= i < data@.col_levels.unconverted_l0s.len() && (
            #[trigger] data@.col_levels.unconverted_l0s[i]).id == id) && exists|i: int|
            0 <= i < snap.l0_creates@.len() && (#[trigger] snap.l0_creates@[i]).id == id,
{
    let d = data@;
    let asked = l0s_asked(d.l0_tbls, sizes, ranges, write_only);
    let out = snap.l0_creates@;
    assert(out.len() == asked.len());
    assert forall|i: int| 0 <= i < out.len() implies (#[trigger] out[i]).id == asked[i].id
        && out[i].smallest == asked[i].smallest && out[i].biggest == asked[i].biggest by {}
    if exists|i: int| 0 <= i < out.len() && (#[trigger] out[i]).id == id {
        let i = choose|i: int| 0 <= i < out.len() && (#[trigger] out[i]).id == id;
        let t = asked[i];
        assert(asked.contains(t));
        lemma_l0s_asked(d.l0_tbls, sizes, ranges, write_only, t);
    }
    if exists|i: int|
        0 <= i < d.l0_tbls.len() && (#[trigger] d.l0_tbls[i]).id == id && asked_for(
            d.l0_tbls[i].bound(),
            ranges,
        ) && (write_only ==> sizes[i] is Some && sizes[i]->0 != 0) {
        let i = choose|i: int|
            0 <= i < d.l0_tbls.len() && (#[trigger] d.l0_tbls[i]).id == id && asked_for(
                d.l0_tbls[i].bound(),
                ranges,
            ) && (write_only ==> sizes[i] is Some && sizes[i]->0 != 0);
        let t = d.l0_tbls[i];
        lemma_l0s_asked(d.l0_tbls, sizes, ranges, write_only, t);
        let j = choose|j: int| 0 <= j < asked.len() && asked[j] == t;
        assert(out[j].id == id);
    }
    assert forall|i: int| 0 <= i < out.len() implies exists|j: int|
        0 <= j < d.l0_tbls.len() && (#[trigger] out[i]).id == (#[trigger] d.l0_tbls[j]).id
            && out[i].smallest == d.l0_tbls[j].smallest && out[i].biggest
            == d.l0_tbls[j].biggest by {
        let t = asked[i];
        assert(asked.contains(t));
        lemma_l0s_asked(d.l0_tbls, sizes, ranges, write_only, t);
        let j = choose|j: int|
            0 <= j < d.l0_tbls.len() && #[trigger] d.l0_tbls[j] == t && asked_for(
                t.bound(),
                ranges,
            ) && (write_only ==> sizes[j] is Some && sizes[j]->0 != 0);
        assert(out[i].id == d.l0_tbls[j].id);
    }
    lemma_ids_among(d.col_levels.unconverted_l0s, asked, id);
    if exists|k: int| 0 <= k < asked.len() && (#[trigger] asked[k]).id == id {
        let k = choose|k: int| 0 <= k < asked.len() && (#[trigger] asked[k]).id == id;
        assert(out[k].id == id);
    }
    if exists|k: int| 0 <= k < out.len() && (#[trigger] out[k]).id == id {
        let k = choose|k: int| 0 <= k < out.len() && (#[trigger] out[k]).id == id;
        assert(asked[k].id == id);
    }
}

proof fn lemma_ids_among(l0s: Seq<L0Table>, others: Seq<L0Table>, id: u64)
    ensures
        ids_among(l0s, others).contains(id) <==> (exists|i: int|
            0 <= i < l0s.len() && (#[trigger] l0s[i]).id == id) && exists|k: int|
            0 <= k < others.len() && (#[trigger] others[k]).id == id,
    decreases l0s.len(),
{
    if l0s.len() > 0 {
        let init = l0s.drop_last();
        let n = l0s.len() - 1;
        lemma_ids_among(init, others, id);
        lemma_pushed(ids_among(init, others), l0s.last().id, id);
        assert(l0s[n] == l0s.last());
        if exists|i: int| 0 <= i < init.len() && (#[trigger] init[i]).id == id {
            let i = choose|i: int| 0 <= i < init.len() && (#[trigger] init[i]).id == id;
            assert(l0s[i].id == id);
        }
        if exists|i: int| 0 <= i < l0s.len() && (#[trigger] l0s[i]).id == id {
            let i = choose|i: int| 0 <= i < l0s.len() && (#[trigger] l0s[i]).id == id;
            if i < n {
                assert(init[i].id == id);
            }
        }
    }
}

/// The create tells of the table at the level of the column family.
pub open spec fn tells_of(c: TableCreate, t: SsTable, cf: int, level: usize) -> bool {
    c.id == t.id && c.smallest == t.smallest && c.biggest == t.biggest && c.cf == cf as i32
        && c.level == level as u32
}

/// A table of the level has the id and keys of a range.
pub open spec fn one_is_asked_for(tables: Seq<SsTable>, id: u64, ranges: Seq<KeyRange>) -> bool {
    exists|k: int|
        0 <= k < tables.len() && (#[trigger] tables[k]).id == id && asked_for(
            tables[k].bound(),
            ranges,
        )
}

proof fn lemma_level_asked(
    level: Level,
    cf: int,
    ranges: Seq<KeyRange>,
    offsets: Map<u64, u32>,
    n: int,
    c: TableCreate,
)
    requires
        0 <= n <= level.tables.len(),
        level_creates(level, cf, ranges, offsets, n).contains(c),
    ensures
        exists|k: int|
            0 <= k < n && tells_of(c, #[trigger] level.tables[k], cf, level.level)
                && one_is_asked_for(level.tables, level.tables[k].id, ranges),
    decreases n,
{
    if n > 0 {
        let rest = level_creates(level, cf, ranges, offsets, n - 1);
        let t = level.tables[n - 1];
        let x = table_create(t, cf, level.level, offsets);
        lemma_pushed(rest, x, c);
        if rest.contains(c) {
            lemma_level_asked(level, cf, ranges, offsets, n - 1, c);
            let k = choose|k: int|
                0 <= k < n - 1 && tells_of(c, #[trigger] level.tables[k], cf, level.level)
                    && one_is_asked_for(level.tables, level.tables[k].id, ranges);
            assert(tells_of(c, level.tables[k], cf, level.level));
        } else {
            assert(table_asked(level.tables, ranges, t));
            let k = choose|k: int|
                0 <= k < level.tables.len() && (#[trigger] level.tables[k]).id == t.id && hit(
                    level.tables[k].bound(),
                    ranges,
                );
            lemma_hit(level.tables[k].bound(), ranges);
            assert(one_is_asked_for(level.tables, t.id, ranges));
            assert(tells_of(c, level.tables[n - 1], cf, level.level));
        }
    }
}

proof fn lemma_cf_asked(
    levels: Seq<Level>,
    cf: int,
    ranges: Seq<KeyRange>,
    offsets: Map<u64, u32>,
    n: int,
    c: TableCreate,
)
    requires
        0 <= n <= levels.len(),
        cf_creates(levels, cf, ranges, offsets, n).contains(c),
    ensures
        exists|l: int, k: int|
            0 <= l < n && 0 <= k < levels[l].tables.len() && tells_of(
                c,
                #[trigger] levels[l].tables[k],
                cf,
                levels[l].level,
            ) && one_is_asked_for(levels[l].tables, levels[l].tables[k].id, ranges),
    decreases n,
{
    if n > 0 {
        let rest = cf_creates(levels, cf, ranges, offsets, n - 1);
        let level = levels[n - 1];
        let more = level_creates(level, cf, ranges, offsets, level.tables.len() as int);
        lemma_joined(rest, more, c);
        if rest.contains(c) {
            lemma_cf_asked(levels, cf, ranges, offsets, n - 1, c);
        } else {
            lemma_level_asked(level, cf, ranges, offsets, level.tables.len() as int, c);
            let k = choose|k: int|
                0 <= k < level.tables.len() && tells_of(
                    c,
                    #[trigger] level.tables[k],
                    cf,
                    level.level,
                ) && one_is_asked_for(level.tables, level.tables[k].id, ranges);
            assert(tells_of(c, levels[n - 1].tables[k], cf, levels[n - 1].level));
        }
    }
}

/// Every table that is handed out is one of the column families that are wanted, at its level,
/// and it or one with its id has keys of a range.
pub proof fn law_only_asked_tables_are_handed_out(
    cfs: Seq<Seq<Level>>,
    ranges: Seq<KeyRange>,
    write_only: bool,
    offsets: Map<u64, u32>,
    n: int,
    c: TableCreate,
)
    requires
        0 <= n <= cfs.len(),
        table_creates(cfs, ranges, write_only, offsets, n).contains(c),
    ensures
        exists|f: int, l: int, k: int|
            0 <= f < n && 0 <= l < cfs[f].len() && 0 <= k < cfs[f][l].tables.len() && (write_only
                ==> f == 0) && tells_of(c, #[trigger] cfs[f][l].tables[k], f, cfs[f][l].level)
                && one_is_asked_for(cfs[f][l].tables, cfs[f][l].tables[k].id, ranges),
    decreases n,
{
    if n > 0 {
        let rest = table_creates(cfs, ranges, write_only, offsets, n - 1);
        let levels = cfs[n - 1];
        let more = cf_creates(levels, n - 1, ranges, offsets, levels.len() as int);
        lemma_joined(rest, more, c);
        if rest.contains(c) {
            law_only_asked_tables_are_handed_out(cfs, ranges, write_only, offsets, n - 1, c);
        } else {
            lemma_cf_asked(levels, n - 1, ranges, offsets, levels.len() as int, c);
            let (l, k) = choose|l: int, k: int|
                0 <= l < levels.len() && 0 <= k < levels[l].tables.len() && tells_of(
                    c,
                    #[trigger] levels[l].tables[k],
                    n - 1,
                    levels[l].level,
                ) && one_is_asked_for(levels[l].tables, levels[l].tables[k].id, ranges);
            assert(tells_of(c, cfs[n - 1][l].tables[k], n - 1, cfs[n - 1][l].level));
        }
    }
}

/// A list of those with data has the file.
pub open spec fn held_for_some(holding: Seq<Vec<u64>>, id: u64) -> bool {
    exists|r: int| 0 <= r < holding.len() && (#[trigger] holding[r])@.contains(id)
}

/// The columnar files that are handed out are those of each level that have data of a range,
/// each with its level and version.
pub proof fn law_columnar_files_of_the_ranges_are_handed_out(
    levels: Seq<Seq<ColumnarFile>>,
    holding: Seq<Vec<u64>>,
    offsets: Map<u64, u32>,
    n: int,
)
    requires
        0 <= n <= levels.len(),
    ensures
        ({
            let out = columnar_creates(levels, holding, offsets, n);
            &&& forall|l: int, i: int|
                0 <= l < n && 0 <= i < levels[l].len() && held_for_some(
                    holding,
                    (#[trigger] levels[l][i]).id,
                ) ==> exists|j: int| 0 <= j < out.len() && hands_out(#[trigger] out[j], levels[l][i], l)
            &&& forall|j: int|
                0 <= j < out.len() ==> held_for_some(holding, (#[trigger] out[j]).id) && exists|
                    l: int,
                    i: int,
                |
                    0 <= l < n && 0 <= i < levels[l].len() && hands_out(
                        out[j],
                        #[trigger] levels[l][i],
                        l,
                    )
        }),
    decreases n,
{
    if n > 0 {
        law_columnar_files_of_the_ranges_are_handed_out(levels, holding, offsets, n - 1);
        let rest = columnar_creates(levels, holding, offsets, n - 1);
        let last = levels[n - 1];
        let more = col_level_creates(last, n - 1, holding, offsets);
        let out = columnar_creates(levels, holding, offsets, n);
        lemma_col_level(last, n - 1, holding, offsets);
        assert forall|l: int, i: int|
            0 <= l < n && 0 <= i < levels[l].len() && held_for_some(
                holding,
                (#[trigger] levels[l][i]).id,
            ) implies exists|j: int|
            0 <= j < out.len() && hands_out(#[trigger] out[j], levels[l][i], l) by {
            if l < n - 1 {
                let j = choose|j: int|
                    0 <= j < rest.len() && hands_out(#[trigger] rest[j], levels[l][i], l);
                assert(out[j] == rest[j]);
            } else {
                assert(held_for_some(holding, last[i].id));
                let j = choose|j: int|
                    0 <= j < more.len() && hands_out(#[trigger] more[j], last[i], n - 1);
                assert(out[rest.len() + j] == more[j]);
            }
        }
        assert forall|j: int| 0 <= j < out.len() implies held_for_some(
            holding,
            (#[trigger] out[j]).id,
        ) && exists|l: int, i: int|
            0 <= l < n && 0 <= i < levels[l].len() && hands_out(
                out[j],
                #[trigger] levels[l][i],
                l,
            ) by {
            if j < rest.len() {
                assert(out[j] == rest[j]);
                let (l, i) = choose|l: int, i: int|
                    0 <= l < n - 1 && 0 <= i < levels[l].len() && hands_out(
                        rest[j],
                        #[trigger] levels[l][i],
                        l,
                    );
                assert(hands_out(out[j], levels[l][i], l));
            } else {
                let m = more[j - rest.len()];
                assert(out[j] == m);
                let i = choose|i: int|
                    0 <= i < last.len() && hands_out(m, #[trigger] last[i], n - 1);
                assert(hands_out(out[j], levels[n - 1][i], n - 1));
            }
        }
    }
}

/// The create tells of the columnar file at the level.
pub open spec fn hands_out(c: ColumnarCreate, f: ColumnarFile, level: int) -> bool {
    c.id == f.id && c.smallest == f.smallest && c.biggest == f.biggest && c.level == level as u32
        && c.table_ids == f.table_ids && c.snap_version == f.snap().version
}

proof fn lemma_col_level(
    files: Seq<ColumnarFile>,
    level: int,
    holding: Seq<Vec<u64>>,
    offsets: Map<u64, u32>,
)
    ensures
        ({
            let out = col_level_creates(files, level, holding, offsets);
            &&& forall|i: int|
                0 <= i < files.len() && held_for_some(holding, (#[trigger] files[i]).id) ==> exists|
                    j: int,
                |
                    0 <= j < out.len() && hands_out(#[trigger] out[j], files[i], level)
            &&& forall|j: int|
                0 <= j < out.len() ==> held_for_some(holding, (#[trigger] out[j]).id) && exists|
                    i: int,
                |
                    0 <= i < files.len() && hands_out(out[j], #[trigger] files[i], level)
        }),
    decreases files.len(),
{
    if files.len() > 0 {
        let init = files.drop_last();
        let n = files.len() - 1;
        let last = files.last();
        lemma_col_level(init, level, holding, offsets);
        let rest = col_level_creates(init, level, holding, offsets);
        let out = col_level_creates(files, level, holding, offsets);
        assert(files[n] == last);
        assert(has_data_in(holding, last.id) == held_for_some(holding, last.id));
        let x = columnar_create(last, level, offsets);
        assert(hands_out(x, last, level));
        assert forall|i: int|
            0 <= i < files.len() && held_for_some(
                holding,
                (#[trigger] files[i]).id,
            ) implies exists|j: int|
            0 <= j < out.len() && hands_out(#[trigger] out[j], files[i], level) by {
            if i < n {
                assert(init[i] == files[i]);
                let j = choose|j: int|
                    0 <= j < rest.len() && hands_out(#[trigger] rest[j], init[i], level);
                assert(out[j] == rest[j]);
            } else {
                assert(out[rest.len() as int] == x);
            }
        }
        assert forall|j: int| 0 <= j < out.len() implies held_for_some(
            holding,
            (#[trigger] out[j]).id,
        ) && exists|i: int|
            0 <= i < files.len() && hands_out(out[j], #[trigger] files[i], level) by {
            if j < rest.len() {
                assert(out[j] == rest[j]);
                let i = choose|i: int|
                    0 <= i < init.len() && hands_out(rest[j], #[trigger] init[i], level);
                assert(files[i] == init[i]);
            } else {
                assert(out[j] == x);
                assert(hands_out(out[j], files[n], level));
            }
        }
    }
}

} // verus!
