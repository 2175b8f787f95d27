//! When a change counts as seen, told by its message and the files that a shard has.
use vstd::prelude::*;

use crate::pb;
use crate::buf::content;
use crate::file_meta::{FileMeta, FileType};
use crate::files::has_file;
use crate::lists::lemma_filtered;
use crate::meta::Meta;
use crate::meta::duplicate::{
    any_dedicated_gone, any_del_gone, any_gone, any_packed_gone, has_dedicated, has_packed,
};
use crate::meta::laws::{law_compaction_replaces_tables, names_blob, names_table, only_moves};
use crate::properties::{first_value, INGEST_ID_KEY, STORAGE_CLASS_KEY};

verus! {

/// The shard has the file, of the type and at the level.
pub open spec fn in_place(files: Map<u64, FileMeta>, id: u64, level: int, ft: FileType) -> bool {
    files.contains_key(id) && files[id].level == level && files[id].file_type == ft
}

/// Some listed table is not at the level.
pub open spec fn misplaced(
    files: Map<u64, FileMeta>,
    ids: Seq<u64>,
    level: int,
    ft: FileType,
) -> bool {
    exists|i: int| 0 <= i < ids.len() && !in_place(files, #[trigger] ids[i], level, ft)
}

/// Some listed table is not at its level.
pub open spec fn moved_away(
    files: Map<u64, FileMeta>,
    dels: Seq<pb::TableDelete>,
    ft: FileType,
) -> bool {
    exists|i: int|
        0 <= i < dels.len() && !in_place(
            files,
            (#[trigger] dels[i]).id,
            dels[i].level as int,
            ft,
        )
}

/// A table that the change takes away, or turns into columns, is not where it was.
pub open spec fn lacks_a_table(m: Meta, cs: pb::ChangeSet) -> bool {
    ||| cs.compaction matches Some(c) && (misplaced(
        m.files,
        c.top_deletes@,
        c.level as int,
        FileType::Sst,
    ) || misplaced(m.files, c.bottom_deletes@, c.level + 1, FileType::Sst))
    ||| cs.major_compaction matches Some(c) && (moved_away(
        m.files,
        c.sstable_change.table_deletes@,
        FileType::Sst,
    ) || misplaced(m.files, c.old_blob_tables@, 0, FileType::Blob))
    ||| cs.columnar_compaction matches Some(c) && c.target_level == 0 && exists|i: int|
        0 <= i < c.row_l0s@.len() && !m.unconverted_l0s.contains(#[trigger] c.row_l0s@[i])
    ||| cs.columnar_compaction matches Some(c) && 1 <= c.target_level <= 2 && moved_away(
        m.files,
        c.columnar_change.columnar_deletes@,
        FileType::Columnar,
    )
    ||| cs.destroy_range matches Some(t) && (moved_away(m.files, t.table_deletes@, FileType::Sst)
        || moved_away(m.files, t.columnar_deletes@, FileType::Columnar))
    ||| cs.truncate_ts matches Some(t) && (moved_away(m.files, t.table_deletes@, FileType::Sst)
        || moved_away(m.files, t.columnar_deletes@, FileType::Columnar))
    ||| cs.trim_over_bound matches Some(t) && (moved_away(m.files, t.table_deletes@, FileType::Sst)
        || moved_away(m.files, t.columnar_deletes@, FileType::Columnar))
}

/// A full text file that the change takes away is not there.
pub open spec fn lacks_a_text_file(m: Meta, u: pb::FtsUpdate) -> bool {
    ||| exists|i: int|
        0 <= i < u.l0_remove_files@.len() && !packed_named(
            m.fts_l0_files,
            #[trigger] u.l0_remove_files@[i],
        )
    ||| exists|i: int|
        0 <= i < u.l1_remove_files@.len() && !packed_named(
            m.fts_l1_files,
            #[trigger] u.l1_remove_files@[i],
        )
    ||| exists|i: int|
        0 <= i < u.l2_remove_files@.len() && !dedicated_named(
            m.fts_l2_files,
            #[trigger] u.l2_remove_files@[i],
        )
}

/// A full text file of the list has the id.
pub open spec fn packed_named(s: Seq<pb::FtsPackedFileInfo>, id: u64) -> bool {
    exists|i: int| 0 <= i < s.len() && (#[trigger] s[i]).id == id
}

/// A full text file of the list has the id.
pub open spec fn dedicated_named(s: Seq<pb::FtsDedFileInfo>, id: u64) -> bool {
    exists|i: int| 0 <= i < s.len() && (#[trigger] s[i]).id == id
}

/// What the change brings is no newer than what the shard has.
pub open spec fn is_old(m: Meta, cs: pb::ChangeSet) -> bool {
    ||| cs.sequence <= m.seq
    ||| cs.initial_flush is Some && m.parent is None
    ||| cs.flush matches Some(f) && f.version <= m.base_version + m.data_sequence
    ||| cs.update_schema_meta matches Some(s) && (s.version < m.schema.schema_file_ver
        || s.version == m.schema.schema_file_ver && m.schema.schema_file_id > 0)
    ||| cs.fts_update matches Some(u) && 0 < u.set_snap_version < m.fts_l0_snap_version.version
}

/// The shard has every file of the ingestion; one with an id is told by that.
pub open spec fn is_ingested(m: Meta, f: pb::IngestFiles) -> bool {
    match first_value(INGEST_ID_KEY@, f.properties) {
        Some(id) => m.props.contains_key(INGEST_ID_KEY@) && m.props[INGEST_ID_KEY@] == content(id),
        None => {
            &&& forall|i: int|
                0 <= i < f.l0_creates@.len() ==> m.files.contains_key(
                    (#[trigger] f.l0_creates@[i]).id,
                )
            &&& forall|i: int|
                0 <= i < f.table_creates@.len() ==> m.files.contains_key(
                    (#[trigger] f.table_creates@[i]).id,
                )
            &&& forall|i: int|
                0 <= i < f.blob_creates@.len() ==> m.files.contains_key(
                    (#[trigger] f.blob_creates@[i]).id,
                )
        },
    }
}

proof fn lemma_gone(files: Map<u64, FileMeta>, ids: Seq<u64>, level: u32, ft: FileType)
    ensures
        any_gone(files, ids, level, ft) == misplaced(files, ids, level as int, ft),
{
    if any_gone(files, ids, level, ft) {
        let i = choose|i: int|
            0 <= i < ids.len() && !has_file(files, #[trigger] ids[i], level, ft);
        assert(!in_place(files, ids[i], level as int, ft));
    }
    if misplaced(files, ids, level as int, ft) {
        let i = choose|i: int|
            0 <= i < ids.len() && !in_place(files, #[trigger] ids[i], level as int, ft);
        assert(!has_file(files, ids[i], level, ft));
    }
}

proof fn lemma_del_gone(files: Map<u64, FileMeta>, dels: Seq<pb::TableDelete>, ft: FileType)
    ensures
        any_del_gone(files, dels, ft) == moved_away(files, dels, ft),
{
    if any_del_gone(files, dels, ft) {
        let i = choose|i: int|
            0 <= i < dels.len() && !has_file(
                files,
                (#[trigger] dels[i]).id,
                dels[i].level,
                ft,
            );
        assert(!in_place(files, dels[i].id, dels[i].level as int, ft));
    }
    if moved_away(files, dels, ft) {
        let i = choose|i: int|
            0 <= i < dels.len() && !in_place(
                files,
                (#[trigger] dels[i]).id,
                dels[i].level as int,
                ft,
            );
        assert(!has_file(files, dels[i].id, dels[i].level, ft));
    }
}

proof fn lemma_lacks_tables(m: Meta, cs: pb::ChangeSet)
    requires
        cs.compaction matches Some(c) ==> c.level < u32::MAX,
    ensures
        lacks_a_table(m, cs) == {
            ||| cs.compaction is Some && m.saw_compaction(cs.compaction->0)
            ||| cs.major_compaction is Some && m.saw_major_compaction(cs.major_compaction->0)
            ||| cs.columnar_compaction is Some && m.saw_columnar_compaction(
                cs.columnar_compaction->0,
            )
            ||| cs.destroy_range is Some && m.saw_table_change(cs.destroy_range->0)
            ||| cs.truncate_ts is Some && m.saw_table_change(cs.truncate_ts->0)
            ||| cs.trim_over_bound is Some && m.saw_table_change(cs.trim_over_bound->0)
        },
{
    if let Some(c) = cs.compaction {
        lemma_gone(m.files, c.top_deletes@, c.level, FileType::Sst);
        lemma_gone(m.files, c.bottom_deletes@, (c.level + 1) as u32, FileType::Sst);
    }
    if let Some(c) = cs.major_compaction {
        lemma_del_gone(m.files, c.sstable_change.table_deletes@, FileType::Sst);
        lemma_gone(m.files, c.old_blob_tables@, 0, FileType::Blob);
    }
    if let Some(c) = cs.columnar_compaction {
        lemma_del_gone(m.files, c.columnar_change.columnar_deletes@, FileType::Columnar);
    }
    if let Some(t) = cs.destroy_range {
        lemma_del_gone(m.files, t.table_deletes@, FileType::Sst);
        lemma_del_gone(m.files, t.columnar_deletes@, FileType::Columnar);
    }
    if let Some(t) = cs.truncate_ts {
        lemma_del_gone(m.files, t.table_deletes@, FileType::Sst);
        lemma_del_gone(m.files, t.columnar_deletes@, FileType::Columnar);
    }
    if let Some(t) = cs.trim_over_bound {
        lemma_del_gone(m.files, t.table_deletes@, FileType::Sst);
        lemma_del_gone(m.files, t.columnar_deletes@, FileType::Columnar);
    }
}

proof fn lemma_lacks_texts(m: Meta, u: pb::FtsUpdate)
    ensures
        lacks_a_text_file(m, u) == (any_packed_gone(m.fts_l0_files, u.l0_remove_files@)
            || any_packed_gone(m.fts_l1_files, u.l1_remove_files@) || any_dedicated_gone(
            m.fts_l2_files,
            u.l2_remove_files@,
        )),
{
    assert forall|s: Seq<pb::FtsPackedFileInfo>, id: u64| #[trigger] has_packed(s, id)
        == packed_named(s, id) by {}
    assert forall|s: Seq<pb::FtsDedFileInfo>, id: u64| #[trigger] has_dedicated(s, id)
        == dedicated_named(s, id) by {}
    lemma_packed(m.fts_l0_files, u.l0_remove_files@);
    lemma_packed(m.fts_l1_files, u.l1_remove_files@);
    lemma_dedicated(m.fts_l2_files, u.l2_remove_files@);
}

proof fn lemma_packed(s: Seq<pb::FtsPackedFileInfo>, ids: Seq<u64>)
    ensures
        any_packed_gone(s, ids) == exists|i: int|
            0 <= i < ids.len() && !packed_named(s, #[trigger] ids[i]),
{
    assert forall|id: u64| #[trigger] has_packed(s, id) == packed_named(s, id) by {}
    if any_packed_gone(s, ids) {
        let i = choose|i: int| 0 <= i < ids.len() && !has_packed(s, #[trigger] ids[i]);
        assert(!packed_named(s, ids[i]));
    }
    if exists|i: int| 0 <= i < ids.len() && !packed_named(s, #[trigger] ids[i]) {
        let i = choose|i: int| 0 <= i < ids.len() && !packed_named(s, #[trigger] ids[i]);
        assert(!has_packed(s, ids[i]));
    }
}

proof fn lemma_dedicated(s: Seq<pb::FtsDedFileInfo>, ids: Seq<u64>)
    ensures
        any_dedicated_gone(s, ids) == exists|i: int|
            0 <= i < ids.len() && !dedicated_named(s, #[trigger] ids[i]),
{
    assert forall|id: u64| #[trigger] has_dedicated(s, id) == dedicated_named(s, id) by {}
    if any_dedicated_gone(s, ids) {
        let i = choose|i: int| 0 <= i < ids.len() && !has_dedicated(s, #[trigger] ids[i]);
        assert(!dedicated_named(s, ids[i]));
    }
    if exists|i: int| 0 <= i < ids.len() && !dedicated_named(s, #[trigger] ids[i]) {
        let i = choose|i: int| 0 <= i < ids.len() && !dedicated_named(s, #[trigger] ids[i]);
        assert(!has_dedicated(s, ids[i]));
    }
}

/// A change set counts as seen if and only if it is no newer than the shard, a file that it
/// takes away is not where it was, the shard has all that it ingests, or it sets the storage
/// class that the shard has.
pub proof fn law_change_set_is_seen(
    m: Meta,
    cs: pb::ChangeSet,
    current: pb::StorageClassSpec,
    res: bool,
)
    requires
        cs.compaction matches Some(c) ==> c.level < u32::MAX,
        res == m.saw(cs, current),
    ensures
        is_old(m, cs) ==> res,
        lacks_a_table(m, cs) ==> res,
        cs.fts_update matches Some(u) ==> (lacks_a_text_file(m, u) ==> res),
        cs.ingest_files matches Some(f) ==> (is_ingested(m, f) ==> res),
        cs.property_key@ == STORAGE_CLASS_KEY@ && cs.storage_class == current ==> res,
        res ==> {
            ||| is_old(m, cs)
            ||| lacks_a_table(m, cs)
            ||| cs.fts_update is Some && lacks_a_text_file(m, cs.fts_update->0)
            ||| cs.ingest_files is Some && is_ingested(m, cs.ingest_files->0)
            ||| cs.property_key@ == STORAGE_CLASS_KEY@ && cs.storage_class == current
        },
{
    lemma_lacks_tables(m, cs);
    if let Some(u) = cs.fts_update {
        lemma_lacks_texts(m, u);
    }
}

/// A change set that is looked at keeps all but two things: a compaction of a newer change set
/// that lacks a table is void, and it is not made void for another reason.
pub proof fn law_compaction_that_lacks_a_table_is_void(
    m: Meta,
    cs: pb::ChangeSet,
    after: pb::ChangeSet,
)
    requires
        m.marks(cs, after),
        cs.compaction matches Some(c) ==> c.level < u32::MAX,
    ensures
        after == (pb::ChangeSet {
            compaction: after.compaction,
            major_compaction: after.major_compaction,
            ingest_files: after.ingest_files,
            ..cs
        }),
        after.compaction is Some <==> cs.compaction is Some,
        after.compaction matches Some(c) ==> c == (pb::Compaction {
            conflicted: c.conflicted,
            ..cs.compaction->0
        }) && (cs.compaction->0.conflicted ==> c.conflicted) && (c.conflicted
            ==> cs.compaction->0.conflicted || misplaced(
            m.files,
            c.top_deletes@,
            c.level as int,
            FileType::Sst,
        ) || misplaced(m.files, c.bottom_deletes@, c.level + 1, FileType::Sst)) && (
        cs.sequence > m.seq && cs.initial_flush is None && cs.flush is None && (misplaced(
            m.files,
            c.top_deletes@,
            c.level as int,
            FileType::Sst,
        ) || misplaced(m.files, c.bottom_deletes@, c.level + 1, FileType::Sst)) ==> c.conflicted),
        after.major_compaction is Some <==> cs.major_compaction is Some,
        after.major_compaction matches Some(c) ==> c == (pb::MajorCompaction {
            conflicted: c.conflicted,
            ..cs.major_compaction->0
        }) && (cs.major_compaction->0.conflicted ==> c.conflicted) && (c.conflicted
            ==> cs.major_compaction->0.conflicted || moved_away(
            m.files,
            c.sstable_change.table_deletes@,
            FileType::Sst,
        ) || misplaced(m.files, c.old_blob_tables@, 0, FileType::Blob)) && (cs.sequence > m.seq
            && cs.initial_flush is None && cs.flush is None && cs.compaction is None && (
        moved_away(m.files, c.sstable_change.table_deletes@, FileType::Sst) || misplaced(
            m.files,
            c.old_blob_tables@,
            0,
            FileType::Blob,
        )) ==> c.conflicted),
{
    if let Some(c) = cs.compaction {
        lemma_gone(m.files, c.top_deletes@, c.level, FileType::Sst);
        lemma_gone(m.files, c.bottom_deletes@, (c.level + 1) as u32, FileType::Sst);
    }
    if let Some(c) = cs.major_compaction {
        lemma_del_gone(m.files, c.sstable_change.table_deletes@, FileType::Sst);
        lemma_gone(m.files, c.old_blob_tables@, 0, FileType::Blob);
    }
}

/// Of an ingestion in a newer change set, the files are left that the shard has not; one with
/// an id stays as it is.
pub proof fn law_known_files_are_not_ingested_again(
    m: Meta,
    cs: pb::ChangeSet,
    after: pb::ChangeSet,
)
    requires
        m.marks(cs, after),
        cs.compaction is None,
        !is_old(m, cs),
        !lacks_a_table(m, cs),
        cs.ingest_files is Some,
    ensures
        after.ingest_files is Some,
        ({
            let before = cs.ingest_files->0;
            let left = after.ingest_files->0;
            let known = |id: u64| m.files.contains_key(id);
            &&& left.properties == before.properties
            &&& left.max_ts == before.max_ts
            &&& left.table_id == before.table_id
            &&& first_value(INGEST_ID_KEY@, before.properties) is Some ==> left == before
            &&& first_value(INGEST_ID_KEY@, before.properties) is None ==> {
                &&& forall|f: pb::L0Create| #[trigger]
                    left.l0_creates@.contains(f) <==> before.l0_creates@.contains(f) && !known(f.id)
                &&& forall|f: pb::TableCreate| #[trigger]
                    left.table_creates@.contains(f) <==> before.table_creates@.contains(f)
                        && !known(f.id)
                &&& forall|f: pb::BlobCreate| #[trigger]
                    left.blob_creates@.contains(f) <==> before.blob_creates@.contains(f)
                        && !known(f.id)
            }
        }),
{
    lemma_lacks_tables(m, cs);
    let before = cs.ingest_files->0;
    let left = after.ingest_files->0;
    if first_value(INGEST_ID_KEY@, before.properties) is None {
        assert forall|f: pb::L0Create| #[trigger] left.l0_creates@.contains(
            f,
        ) <==> before.l0_creates@.contains(f) && !m.files.contains_key(f.id) by {
            lemma_filtered(before.l0_creates@, |f: pb::L0Create| !m.files.contains_key(f.id), f);
        }
        assert forall|f: pb::TableCreate| #[trigger] left.table_creates@.contains(
            f,
        ) <==> before.table_creates@.contains(f) && !m.files.contains_key(f.id) by {
            lemma_filtered(
                before.table_creates@,
                |f: pb::TableCreate| !m.files.contains_key(f.id),
                f,
            );
        }
        assert forall|f: pb::BlobCreate| #[trigger] left.blob_creates@.contains(
            f,
        ) <==> before.blob_creates@.contains(f) && !m.files.contains_key(f.id) by {
            lemma_filtered(before.blob_creates@, |f: pb::BlobCreate| !m.files.contains_key(f.id), f);
        }
    }
}

/// A compaction that was applied is seen when it comes again, under whatever sequence, where
/// it took away a table that it did not write anew.
pub proof fn law_applied_compaction_is_seen_again(
    m: Meta,
    cs: pb::ChangeSet,
    again: pb::ChangeSet,
    current: pb::StorageClassSpec,
    i: int,
)
    requires
        cs.initial_flush is None,
        cs.flush is None,
        cs.compaction is Some,
        m.can_apply(cs),
        !only_moves(cs.compaction->0),
        cs.compaction->0.level < u32::MAX,
        again.compaction == cs.compaction,
        0 <= i < cs.compaction->0.top_deletes@.len(),
        !names_table(cs.compaction->0.table_creates@, cs.compaction->0.top_deletes@[i]),
        !names_blob(cs.compaction->0.blob_tables@, cs.compaction->0.top_deletes@[i]),
    ensures
        m.applied(cs).saw(again, current),
{
    let c = cs.compaction->0;
    let id = c.top_deletes@[i];
    let after = m.applied(cs);
    law_compaction_replaces_tables(m, cs, c, id);
    assert(c.top_deletes@.contains(id));
    assert(!in_place(after.files, c.top_deletes@[i], c.level as int, FileType::Sst));
    law_change_set_is_seen(after, again, current, after.saw(again, current));
}

} // verus!
