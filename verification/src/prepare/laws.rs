//! What is read covers what is applied.
use vstd::prelude::*;

use crate::file_meta::{l0_meta, FileMeta, FileType};
use crate::files::{
    blob_entries_of, columnar_entries_of, dels_at, dels_of, fts_l0_entries_of, fts_l1_entries_of,
    fts_l2_entries_of, l0_entries_of, table_entries_of, vector_entries_of, with_files,
    with_vectors, without_files,
};
use crate::meta::apply::{can_move, can_move_all, files_changed, files_moved, flush_l0s, move_down};
use crate::meta::{snap_files, Meta};
use crate::pb;
use crate::prepare::collect::{
    files_brought, replacing_snap, with_columnar, with_compaction, with_flush, with_fts,
    with_ingest, with_major, with_snap, with_snap_opt, with_table_change, with_vector_update,
};

verus! {

/// The list names the file.
pub open spec fn lists_file(s: Seq<(u64, FileMeta)>, id: u64) -> bool {
    exists|i: int| 0 <= i < s.len() && (#[trigger] s[i]).0 == id
}

/// Adding files adds those that the list names, and no others.
pub proof fn lemma_files_added(m: Map<u64, FileMeta>, s: Seq<(u64, FileMeta)>, id: u64)
    ensures
        with_files(m, s).contains_key(id) == (m.contains_key(id) || lists_file(s, id)),
    decreases s.len(),
{
    if s.len() > 0 {
        lemma_files_added(m, s.drop_last(), id);
        if lists_file(s.drop_last(), id) {
            let i = choose|i: int| 0 <= i < s.len() - 1 && (#[trigger] s.drop_last()[i]).0 == id;
            assert(s[i].0 == id);
        }
        if lists_file(s, id) && s.last().0 != id {
            let i = choose|i: int| 0 <= i < s.len() && (#[trigger] s[i]).0 == id;
            assert(s.drop_last()[i].0 == id);
        }
        assert(s[s.len() - 1] == s.last());
    }
}

/// The indexes have the file.
pub open spec fn vectors_list(v: Seq<pb::VectorIndex>, id: u64) -> bool {
    exists|i: int| 0 <= i < v.len() && lists_file(vector_entries_of((#[trigger] v[i]).files@), id)
}

/// Adding the files of indexes adds those that an index has, and no others.
pub proof fn lemma_vectors_added(m: Map<u64, FileMeta>, v: Seq<pb::VectorIndex>, id: u64)
    ensures
        with_vectors(m, v).contains_key(id) == (m.contains_key(id) || vectors_list(v, id)),
    decreases v.len(),
{
    if v.len() > 0 {
        let init = v.drop_last();
        lemma_vectors_added(m, init, id);
        lemma_files_added(with_vectors(m, init), vector_entries_of(v.last().files@), id);
        if vectors_list(init, id) {
            let i = choose|i: int|
                0 <= i < init.len() && lists_file(
                    vector_entries_of((#[trigger] init[i]).files@),
                    id,
                );
            assert(v[i] == init[i]);
        }
        if vectors_list(v, id) && !lists_file(vector_entries_of(v.last().files@), id) {
            let i = choose|i: int|
                0 <= i < v.len() && lists_file(vector_entries_of((#[trigger] v[i]).files@), id);
            assert(init[i] == v[i]);
        }
        assert(v[v.len() - 1] == v.last());
    }
}

proof fn lemma_snap_added(m: Map<u64, FileMeta>, snap: pb::Snapshot, id: u64)
    ensures
        with_snap(m, snap).contains_key(id) == (m.contains_key(id) || with_snap(
            Map::empty(),
            snap,
        ).contains_key(id)),
        snap_files(snap).contains_key(id) ==> with_snap(Map::empty(), snap).contains_key(id),
{
    let e = Map::<u64, FileMeta>::empty();
    lemma_snap_lists(m, snap, id);
    lemma_snap_lists(e, snap, id);
    let a = with_files(e, l0_entries_of(snap.l0_creates@));
    lemma_files_added(e, l0_entries_of(snap.l0_creates@), id);
    let b = with_files(a, blob_entries_of(snap.blob_creates@));
    lemma_files_added(a, blob_entries_of(snap.blob_creates@), id);
    let c = with_files(b, table_entries_of(snap.table_creates@));
    lemma_files_added(b, table_entries_of(snap.table_creates@), id);
    let d = with_files(c, columnar_entries_of(snap.columnar_creates@));
    lemma_files_added(c, columnar_entries_of(snap.columnar_creates@), id);
    lemma_vectors_added(d, snap.vector_indexes@, id);
}

/// The shard has the file.
spec fn snap_lists(snap: pb::Snapshot, id: u64) -> bool {
    ||| lists_file(blob_entries_of(snap.blob_creates@), id)
    ||| lists_file(l0_entries_of(snap.l0_creates@), id)
    ||| lists_file(table_entries_of(snap.table_creates@), id)
    ||| lists_file(columnar_entries_of(snap.columnar_creates@), id)
    ||| vectors_list(snap.vector_indexes@, id)
    ||| lists_file(fts_l0_entries_of(snap.fts_l0_files@), id)
    ||| lists_file(fts_l1_entries_of(snap.fts_l1_files@), id)
    ||| lists_file(fts_l2_entries_of(snap.fts_l2_files@), id)
}

proof fn lemma_snap_lists(m: Map<u64, FileMeta>, snap: pb::Snapshot, id: u64)
    ensures
        with_snap(m, snap).contains_key(id) == (m.contains_key(id) || snap_lists(snap, id)),
{
    let a = with_files(m, blob_entries_of(snap.blob_creates@));
    lemma_files_added(m, blob_entries_of(snap.blob_creates@), id);
    let b = with_files(a, l0_entries_of(snap.l0_creates@));
    lemma_files_added(a, l0_entries_of(snap.l0_creates@), id);
    let c = with_files(b, table_entries_of(snap.table_creates@));
    lemma_files_added(b, table_entries_of(snap.table_creates@), id);
    let d = with_files(c, columnar_entries_of(snap.columnar_creates@));
    lemma_files_added(c, columnar_entries_of(snap.columnar_creates@), id);
    let e = with_vectors(d, snap.vector_indexes@);
    lemma_vectors_added(d, snap.vector_indexes@, id);
    let f = with_files(e, fts_l0_entries_of(snap.fts_l0_files@));
    lemma_files_added(e, fts_l0_entries_of(snap.fts_l0_files@), id);
    let g = with_files(f, fts_l1_entries_of(snap.fts_l1_files@));
    lemma_files_added(f, fts_l1_entries_of(snap.fts_l1_files@), id);
    lemma_files_added(g, fts_l2_entries_of(snap.fts_l2_files@), id);
}

/// Each part of a change set adds to what is brought, whatever the others bring.
spec fn part_brings(cs: pb::ChangeSet, remote: bool, id: u64) -> bool {
    let e = Map::<u64, FileMeta>::empty();
    ||| with_flush(e, cs.flush).contains_key(id)
    ||| with_compaction(e, cs.compaction, remote).contains_key(id)
    ||| with_table_change(e, cs.destroy_range).contains_key(id)
    ||| with_table_change(e, cs.truncate_ts).contains_key(id)
    ||| with_table_change(e, cs.trim_over_bound).contains_key(id)
    ||| with_snap_opt(e, cs.initial_flush).contains_key(id)
    ||| with_ingest(e, cs.ingest_files).contains_key(id)
    ||| with_major(e, cs.major_compaction).contains_key(id)
    ||| with_columnar(e, cs.columnar_compaction).contains_key(id)
    ||| with_snap_opt(e, replacing_snap(cs)).contains_key(id)
}

proof fn lemma_tables_kept(m: Map<u64, FileMeta>, cs: pb::ChangeSet, remote: bool, id: u64)
    ensures
        with_flush(m, cs.flush).contains_key(id) == (m.contains_key(id) || with_flush(
            Map::empty(),
            cs.flush,
        ).contains_key(id)),
        with_compaction(m, cs.compaction, remote).contains_key(id) == (m.contains_key(id)
            || with_compaction(Map::empty(), cs.compaction, remote).contains_key(id)),
{
    let e = Map::<u64, FileMeta>::empty();
    if let Some(f) = cs.flush {
        let s = l0_entries_of(f.l0_creates@);
        match f.l0_create {
            Some(l0) => {
                lemma_files_added(m.insert(l0.id, l0_meta(l0)), s, id);
                lemma_files_added(e.insert(l0.id, l0_meta(l0)), s, id);
            },
            None => {
                lemma_files_added(m, s, id);
                lemma_files_added(e, s, id);
            },
        }
    }
    if let Some(c) = cs.compaction {
        let t = table_entries_of(c.table_creates@);
        let b = blob_entries_of(c.blob_tables@);
        lemma_files_added(m, t, id);
        lemma_files_added(e, t, id);
        lemma_files_added(with_files(m, t), b, id);
        lemma_files_added(with_files(e, t), b, id);
    }
}

proof fn lemma_change_kept(m: Map<u64, FileMeta>, change: Option<pb::TableChange>, id: u64)
    ensures
        with_table_change(m, change).contains_key(id) == (m.contains_key(id) || with_table_change(
            Map::empty(),
            change,
        ).contains_key(id)),
{
    let e = Map::<u64, FileMeta>::empty();
    if let Some(c) = change {
        let t = table_entries_of(c.table_creates@);
        let b = columnar_entries_of(c.columnar_creates@);
        lemma_files_added(m, t, id);
        lemma_files_added(e, t, id);
        lemma_files_added(with_files(m, t), b, id);
        lemma_files_added(with_files(e, t), b, id);
    }
}

proof fn lemma_snap_opt_kept(m: Map<u64, FileMeta>, snap: Option<pb::Snapshot>, id: u64)
    ensures
        with_snap_opt(m, snap).contains_key(id) == (m.contains_key(id) || with_snap_opt(
            Map::empty(),
            snap,
        ).contains_key(id)),
{
    if let Some(s) = snap {
        lemma_snap_added(m, s, id);
    }
}

proof fn lemma_ingest_kept(m: Map<u64, FileMeta>, cs: pb::ChangeSet, id: u64)
    ensures
        with_ingest(m, cs.ingest_files).contains_key(id) == (m.contains_key(id) || with_ingest(
            Map::empty(),
            cs.ingest_files,
        ).contains_key(id)),
        with_major(m, cs.major_compaction).contains_key(id) == (m.contains_key(id) || with_major(
            Map::empty(),
            cs.major_compaction,
        ).contains_key(id)),
{
    let e = Map::<u64, FileMeta>::empty();
    if let Some(f) = cs.ingest_files {
        let a = l0_entries_of(f.l0_creates@);
        let b = table_entries_of(f.table_creates@);
        let c = blob_entries_of(f.blob_creates@);
        lemma_files_added(m, a, id);
        lemma_files_added(with_files(m, a), b, id);
        lemma_files_added(with_files(with_files(m, a), b), c, id);
        lemma_files_added(e, a, id);
        lemma_files_added(with_files(e, a), b, id);
        lemma_files_added(with_files(with_files(e, a), b), c, id);
    }
    if let Some(f) = cs.major_compaction {
        let a = table_entries_of(f.sstable_change.table_creates@);
        let b = blob_entries_of(f.new_blob_tables@);
        lemma_files_added(m, a, id);
        lemma_files_added(with_files(m, a), b, id);
        lemma_files_added(e, a, id);
        lemma_files_added(with_files(e, a), b, id);
    }
}

proof fn lemma_indexes_kept(m: Map<u64, FileMeta>, cs: pb::ChangeSet, id: u64)
    ensures
        with_columnar(m, cs.columnar_compaction).contains_key(id) == (m.contains_key(id)
            || with_columnar(Map::empty(), cs.columnar_compaction).contains_key(id)),
        m.contains_key(id) ==> with_vector_update(m, cs.update_vector_index).contains_key(id),
        m.contains_key(id) ==> with_fts(m, cs.fts_update).contains_key(id),
{
    let e = Map::<u64, FileMeta>::empty();
    if let Some(c) = cs.columnar_compaction {
        let a = columnar_entries_of(c.columnar_change.columnar_creates@);
        lemma_files_added(m, a, id);
        lemma_files_added(e, a, id);
    }
    if let Some(u) = cs.update_vector_index {
        lemma_files_added(m, vector_entries_of(u.added@), id);
    }
    if let Some(f) = cs.fts_update {
        let a = with_files(m, fts_l0_entries_of(f.l0_add_files@));
        lemma_files_added(m, fts_l0_entries_of(f.l0_add_files@), id);
        let b = with_files(a, fts_l1_entries_of(f.l1_add_files@));
        lemma_files_added(a, fts_l1_entries_of(f.l1_add_files@), id);
        lemma_files_added(b, fts_l2_entries_of(f.l2_add_files@), id);
    }
}

proof fn lemma_brought(cs: pb::ChangeSet, reload: Option<pb::Snapshot>, remote: bool, id: u64)
    requires
        part_brings(cs, remote, id),
    ensures
        files_brought(cs, reload, remote).contains_key(id),
{
    let e = Map::<u64, FileMeta>::empty();
    lemma_tables_kept(e, cs, remote, id);
    let m = with_flush(e, cs.flush);
    lemma_tables_kept(m, cs, remote, id);
    let m = with_compaction(m, cs.compaction, remote);
    lemma_change_kept(m, cs.destroy_range, id);
    let m = with_table_change(m, cs.destroy_range);
    lemma_change_kept(m, cs.truncate_ts, id);
    let m = with_table_change(m, cs.truncate_ts);
    lemma_change_kept(m, cs.trim_over_bound, id);
    let m = with_table_change(m, cs.trim_over_bound);
    lemma_snap_opt_kept(m, cs.initial_flush, id);
    let m = with_snap_opt(m, cs.initial_flush);
    lemma_ingest_kept(m, cs, id);
    let m = with_ingest(m, cs.ingest_files);
    lemma_ingest_kept(m, cs, id);
    let m = with_major(m, cs.major_compaction);
    lemma_snap_opt_kept(m, reload, id);
    let m = with_snap_opt(m, reload);
    lemma_indexes_kept(m, cs, id);
    let m = with_columnar(m, cs.columnar_compaction);
    lemma_indexes_kept(m, cs, id);
    let m = with_vector_update(m, cs.update_vector_index);
    lemma_indexes_kept(m, cs, id);
    let m = with_fts(m, cs.fts_update);
    lemma_snap_opt_kept(m, replacing_snap(cs), id);
}

/// Moving files down brings none.
proof fn lemma_moved_dom(files: Map<u64, FileMeta>, s: Seq<pb::TableCreate>, n: int)
    requires
        can_move_all(files, s),
        0 <= n <= s.len(),
    ensures
        files_moved(files, s.take(n)).dom() == files.dom(),
    decreases n,
{
    if n > 0 {
        lemma_moved_dom(files, s, n - 1);
        assert(s.take(n).drop_last() =~= s.take(n - 1));
        assert(can_move(files_moved(files, s.take(n - 1)), s[n - 1]));
        assert(files_moved(files, s.take(n)).dom() =~= files.dom());
    } else {
        assert(s.take(0) =~= Seq::empty());
    }
}

/// A change set holds the whole shard in one way at most.
pub open spec fn one_whole_shard(cs: pb::ChangeSet) -> bool {
    &&& !(cs.snapshot is Some && cs.initial_flush is Some)
    &&& !(cs.snapshot is Some && cs.restore_shard is Some)
    &&& !(cs.initial_flush is Some && cs.restore_shard is Some)
}

/// Every file that a shard has after a change set, and had not before, is among
/// those that are brought before it is applied.
pub proof fn law_new_files_are_brought(
    meta: Meta,
    cs: pb::ChangeSet,
    reload: Option<pb::Snapshot>,
    remote: bool,
    id: u64,
)
    requires
        meta.can_apply(cs),
        one_whole_shard(cs),
        meta.applied(cs).files.contains_key(id),
        !meta.files.contains_key(id),
    ensures
        files_brought(cs, reload, remote).contains_key(id),
{
    let e = Map::<u64, FileMeta>::empty();
    if cs.initial_flush is Some {
        lemma_snap_added(e, cs.initial_flush->0, id);
    } else if let Some(f) = cs.flush {
        lemma_files_added(meta.files, l0_entries_of(flush_l0s(f)), id);
        lemma_flush_lists(f, id);
    } else if let Some(c) = cs.compaction {
        let t = table_entries_of(c.table_creates@);
        let b = blob_entries_of(c.blob_tables@);
        if move_down(c) {
            lemma_moved_dom(meta.files, c.table_creates@, c.table_creates@.len() as int);
            assert(c.table_creates@.take(c.table_creates@.len() as int) =~= c.table_creates@);
            assert(meta.files.dom().contains(id));
        } else {
            lemma_files_added(e, t, id);
            lemma_files_added(with_files(e, t), b, id);
            let left = without_files(
                without_files(
                    meta.files,
                    dels_at(c.top_deletes@, c.level),
                    FileType::Sst,
                ),
                dels_at(c.bottom_deletes@, (c.level + 1) as u32),
                FileType::Sst,
            );
            lemma_files_added(left, t, id);
            lemma_files_added(with_files(left, t), b, id);
        }
    } else if cs.destroy_range is Some {
        lemma_change_brings(meta.files, cs.destroy_range->0, id);
    } else if cs.truncate_ts is Some {
        lemma_change_brings(meta.files, cs.truncate_ts->0, id);
    } else if cs.trim_over_bound is Some {
        lemma_change_brings(meta.files, cs.trim_over_bound->0, id);
    } else if let Some(f) = cs.ingest_files {
        let a = l0_entries_of(f.l0_creates@);
        let b = table_entries_of(f.table_creates@);
        let c = blob_entries_of(f.blob_creates@);
        lemma_files_added(e, a, id);
        lemma_files_added(with_files(e, a), b, id);
        lemma_files_added(with_files(with_files(e, a), b), c, id);
        lemma_files_added(meta.files, b, id);
        lemma_files_added(with_files(meta.files, b), a, id);
        lemma_files_added(with_files(with_files(meta.files, b), a), c, id);
    } else if cs.restore_shard is Some {
        lemma_snap_added(e, cs.restore_shard->0, id);
    } else if let Some(c) = cs.major_compaction {
        let a = table_entries_of(c.sstable_change.table_creates@);
        let b = blob_entries_of(c.new_blob_tables@);
        lemma_files_added(e, a, id);
        lemma_files_added(with_files(e, a), b, id);
        let left = without_files(
            meta.files,
            dels_of(c.sstable_change.table_deletes@),
            FileType::Sst,
        );
        lemma_files_added(left, a, id);
        let next = without_files(
            with_files(left, a),
            dels_at(c.old_blob_tables@, 0),
            FileType::Blob,
        );
        lemma_files_added(next, b, id);
    } else if cs.update_schema_meta is Some {
    } else if let Some(c) = cs.columnar_compaction {
        let a = columnar_entries_of(c.columnar_change.columnar_creates@);
        lemma_files_added(e, a, id);
        lemma_files_added(meta.files, a, id);
    }
    lemma_brought(cs, reload, remote, id);
}

proof fn lemma_flush_lists(f: pb::Flush, id: u64)
    requires
        lists_file(l0_entries_of(flush_l0s(f)), id),
    ensures
        with_flush(Map::empty(), Some(f)).contains_key(id),
{
    let e = Map::<u64, FileMeta>::empty();
    let s = l0_entries_of(flush_l0s(f));
    let t = l0_entries_of(f.l0_creates@);
    let i = choose|i: int| 0 <= i < s.len() && (#[trigger] s[i]).0 == id;
    match f.l0_create {
        Some(l0) => {
            lemma_files_added(e.insert(l0.id, l0_meta(l0)), t, id);
            if i > 0 {
                assert(t[i - 1].0 == id);
            }
        },
        None => {
            lemma_files_added(e, t, id);
            assert(t[i].0 == id);
        },
    }
}

proof fn lemma_change_brings(files: Map<u64, FileMeta>, c: pb::TableChange, id: u64)
    requires
        !files.contains_key(id),
        files_changed(files, c).contains_key(id),
    ensures
        with_table_change(Map::empty(), Some(c)).contains_key(id),
{
    let e = Map::<u64, FileMeta>::empty();
    let t = table_entries_of(c.table_creates@);
    let b = columnar_entries_of(c.columnar_creates@);
    lemma_files_added(e, t, id);
    lemma_files_added(with_files(e, t), b, id);
    let left = without_files(
        files,
        dels_of(c.table_deletes@),
        FileType::Sst,
    );
    lemma_files_added(left, t, id);
    let next = without_files(
        with_files(left, t),
        dels_of(c.columnar_deletes@),
        FileType::Columnar,
    );
    lemma_files_added(next, b, id);
}

} // verus!
