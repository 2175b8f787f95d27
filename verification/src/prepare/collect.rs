//! The files that a change set brings.
use std::collections::HashMap;

use vstd::prelude::*;

use crate::buf::content;
use crate::file_meta::{l0_meta, FileMeta};
use crate::files::{
    blob_entries, blob_entries_of, columnar_entries, columnar_entries_of, fts_l0_entries,
    fts_l0_entries_of, fts_l1_entries, fts_l1_entries_of, fts_l2_entries, fts_l2_entries_of,
    insert_files, insert_vectors, l0_entries, l0_entries_of, table_entries, table_entries_of,
    vector_entries, vector_entries_of, with_files, with_vectors,
};
use crate::lists::{contains_u64, retain_vec};
use crate::meta::apply::{is_move_down, move_down};
use crate::pb;

verus! {

broadcast use vstd::std_specs::hash::group_hash_axioms;

/// The map with the files of a whole shard added.
pub open spec fn with_snap(m: Map<u64, FileMeta>, snap: pb::Snapshot) -> Map<u64, FileMeta> {
    let m = with_files(m, blob_entries_of(snap.blob_creates@));
    let m = with_files(m, l0_entries_of(snap.l0_creates@));
    let m = with_files(m, table_entries_of(snap.table_creates@));
    let m = with_files(m, columnar_entries_of(snap.columnar_creates@));
    let m = with_vectors(m, snap.vector_indexes@);
    let m = with_files(m, fts_l0_entries_of(snap.fts_l0_files@));
    let m = with_files(m, fts_l1_entries_of(snap.fts_l1_files@));
    with_files(m, fts_l2_entries_of(snap.fts_l2_files@))
}

/// The map with the files of a whole shard added, if there is one.
pub open spec fn with_snap_opt(
    m: Map<u64, FileMeta>,
    snap: Option<pb::Snapshot>,
) -> Map<u64, FileMeta> {
    match snap {
        Some(snap) => with_snap(m, snap),
        None => m,
    }
}

/// The map with the flushed tables added.
pub open spec fn with_flush(m: Map<u64, FileMeta>, flush: Option<pb::Flush>) -> Map<u64, FileMeta> {
    match flush {
        Some(flush) => with_files(
            match flush.l0_create {
                Some(l0) => m.insert(l0.id, l0_meta(l0)),
                None => m,
            },
            l0_entries_of(flush.l0_creates@),
        ),
        None => m,
    }
}

/// The map with the compacted tables added. Tables that only move down are
/// there already, but those that leave level 0 become readable in parts: they
/// are read again where files may be remote.
pub open spec fn with_compaction(
    m: Map<u64, FileMeta>,
    comp: Option<pb::Compaction>,
    remote: bool,
) -> Map<u64, FileMeta> {
    match comp {
        Some(comp) => if !move_down(comp) {
            with_files(
                with_files(m, table_entries_of(comp.table_creates@)),
                blob_entries_of(comp.blob_tables@),
            )
        } else if comp.level == 0 && remote {
            with_files(m, table_entries_of(comp.table_creates@))
        } else {
            m
        },
        None => m,
    }
}

/// The map with the replacing tables and columnar files added.
pub open spec fn with_table_change(
    m: Map<u64, FileMeta>,
    change: Option<pb::TableChange>,
) -> Map<u64, FileMeta> {
    match change {
        Some(change) => with_files(
            with_files(m, table_entries_of(change.table_creates@)),
            columnar_entries_of(change.columnar_creates@),
        ),
        None => m,
    }
}

/// The map with the ingested files added.
pub open spec fn with_ingest(
    m: Map<u64, FileMeta>,
    ingest: Option<pb::IngestFiles>,
) -> Map<u64, FileMeta> {
    match ingest {
        Some(ingest) => with_files(
            with_files(
                with_files(m, l0_entries_of(ingest.l0_creates@)),
                table_entries_of(ingest.table_creates@),
            ),
            blob_entries_of(ingest.blob_creates@),
        ),
        None => m,
    }
}

/// The map with the files of a major compaction added.
pub open spec fn with_major(
    m: Map<u64, FileMeta>,
    major: Option<pb::MajorCompaction>,
) -> Map<u64, FileMeta> {
    match major {
        Some(major) => with_files(
            with_files(m, table_entries_of(major.sstable_change.table_creates@)),
            blob_entries_of(major.new_blob_tables@),
        ),
        None => m,
    }
}

/// The map with the compacted columnar files added.
pub open spec fn with_columnar(
    m: Map<u64, FileMeta>,
    comp: Option<pb::ColumnarCompaction>,
) -> Map<u64, FileMeta> {
    match comp {
        Some(comp) => with_files(m, columnar_entries_of(comp.columnar_change.columnar_creates@)),
        None => m,
    }
}

/// The map with the new vector index files added.
pub open spec fn with_vector_update(
    m: Map<u64, FileMeta>,
    update: Option<pb::UpdateVectorIndex>,
) -> Map<u64, FileMeta> {
    match update {
        Some(update) => with_files(m, vector_entries_of(update.added@)),
        None => m,
    }
}

/// The map with the new full text files added.
pub open spec fn with_fts(m: Map<u64, FileMeta>, fts: Option<pb::FtsUpdate>) -> Map<u64, FileMeta> {
    match fts {
        Some(fts) => with_files(
            with_files(
                with_files(m, fts_l0_entries_of(fts.l0_add_files@)),
                fts_l1_entries_of(fts.l1_add_files@),
            ),
            fts_l2_entries_of(fts.l2_add_files@),
        ),
        None => m,
    }
}

/// The shard that replaces the present one as a whole.
pub open spec fn replacing_snap(cs: pb::ChangeSet) -> Option<pb::Snapshot> {
    if cs.restore_shard is Some {
        cs.restore_shard
    } else {
        cs.snapshot
    }
}

/// All files that a change set brings, with those of a shard that is to be read
/// again.
pub open spec fn files_brought(
    cs: pb::ChangeSet,
    reload: Option<pb::Snapshot>,
    remote: bool,
) -> Map<u64, FileMeta> {
    let m = with_flush(Map::empty(), cs.flush);
    let m = with_compaction(m, cs.compaction, remote);
    let m = with_table_change(m, cs.destroy_range);
    let m = with_table_change(m, cs.truncate_ts);
    let m = with_table_change(m, cs.trim_over_bound);
    let m = with_snap_opt(m, cs.initial_flush);
    let m = with_ingest(m, cs.ingest_files);
    let m = with_major(m, cs.major_compaction);
    let m = with_snap_opt(m, reload);
    let m = with_columnar(m, cs.columnar_compaction);
    let m = with_vector_update(m, cs.update_vector_index);
    let m = with_fts(m, cs.fts_update);
    with_snap_opt(m, replacing_snap(cs))
}

/// Adds the files of a whole shard.
pub fn collect_snap_ids(snap: &pb::Snapshot, ids: &mut HashMap<u64, FileMeta>)
    ensures
        final(ids)@ == with_snap(old(ids)@, *snap),
{
    insert_files(ids, &blob_entries(&snap.blob_creates));
    insert_files(ids, &l0_entries(&snap.l0_creates));
    insert_files(ids, &table_entries(&snap.table_creates));
    insert_files(ids, &columnar_entries(&snap.columnar_creates));
    insert_vectors(ids, &snap.vector_indexes);
    insert_files(ids, &fts_l0_entries(&snap.fts_l0_files));
    insert_files(ids, &fts_l1_entries(&snap.fts_l1_files));
    insert_files(ids, &fts_l2_entries(&snap.fts_l2_files));
}

/// Adds the flushed and the compacted tables.
fn collect_tables(cs: &pb::ChangeSet, remote: bool, ids: &mut HashMap<u64, FileMeta>)
    ensures
        final(ids)@ == with_compaction(with_flush(old(ids)@, cs.flush), cs.compaction, remote),
{
    if let Some(flush) = &cs.flush {
        if let Some(l0) = &flush.l0_create {
            ids.insert(l0.id, FileMeta::from_l0_table(l0));
        }
        insert_files(ids, &l0_entries(&flush.l0_creates));
    }
    if let Some(comp) = &cs.compaction {
        if !is_move_down(comp) {
            insert_files(ids, &table_entries(&comp.table_creates));
            insert_files(ids, &blob_entries(&comp.blob_tables));
        } else if comp.level == 0 && remote {
            insert_files(ids, &table_entries(&comp.table_creates));
        }
    }
}

/// Adds the files that replace others.
fn collect_table_change(change: &Option<pb::TableChange>, ids: &mut HashMap<u64, FileMeta>)
    ensures
        final(ids)@ == with_table_change(old(ids)@, *change),
{
    if let Some(change) = change {
        insert_files(ids, &table_entries(&change.table_creates));
        insert_files(ids, &columnar_entries(&change.columnar_creates));
    }
}

/// Adds the ingested files and those of a major compaction.
fn collect_ingest(cs: &pb::ChangeSet, ids: &mut HashMap<u64, FileMeta>)
    ensures
        final(ids)@ == with_major(with_ingest(old(ids)@, cs.ingest_files), cs.major_compaction),
{
    if let Some(ingest) = &cs.ingest_files {
        insert_files(ids, &l0_entries(&ingest.l0_creates));
        insert_files(ids, &table_entries(&ingest.table_creates));
        insert_files(ids, &blob_entries(&ingest.blob_creates));
    }
    if let Some(major) = &cs.major_compaction {
        insert_files(ids, &table_entries(&major.sstable_change.table_creates));
        insert_files(ids, &blob_entries(&major.new_blob_tables));
    }
}

/// Adds the columnar, vector index and full text files.
fn collect_indexes(cs: &pb::ChangeSet, ids: &mut HashMap<u64, FileMeta>)
    ensures
        final(ids)@ == with_fts(
            with_vector_update(
                with_columnar(old(ids)@, cs.columnar_compaction),
                cs.update_vector_index,
            ),
            cs.fts_update,
        ),
{
    if let Some(comp) = &cs.columnar_compaction {
        insert_files(ids, &columnar_entries(&comp.columnar_change.columnar_creates));
    }
    if let Some(update) = &cs.update_vector_index {
        insert_files(ids, &vector_entries(&update.added));
    }
    if let Some(fts) = &cs.fts_update {
        insert_files(ids, &fts_l0_entries(&fts.l0_add_files));
        insert_files(ids, &fts_l1_entries(&fts.l1_add_files));
        insert_files(ids, &fts_l2_entries(&fts.l2_add_files));
    }
}

/// The shard that replaces the present one as a whole.
pub fn get_replacing_snap(cs: &pb::ChangeSet) -> (res: Option<&pb::Snapshot>)
    ensures
        match res {
            Some(snap) => replacing_snap(*cs) == Some(*snap),
            None => replacing_snap(*cs) is None,
        },
{
    match (&cs.restore_shard, &cs.snapshot) {
        (Some(snap), _) => Some(snap),
        (None, Some(snap)) => Some(snap),
        (None, None) => None,
    }
}

/// All files that a change set brings, with those of a shard that is to be read
/// again.
pub fn collect_files(cs: &pb::ChangeSet, reload: Option<&pb::Snapshot>, remote: bool) -> (res: HashMap<
    u64,
    FileMeta,
>)
    ensures
        res@ == files_brought(
            *cs,
            match reload {
                Some(snap) => Some(*snap),
                None => None,
            },
            remote,
        ),
{
    let mut ids: HashMap<u64, FileMeta> = HashMap::new();
    collect_tables(cs, remote, &mut ids);
    collect_table_change(&cs.destroy_range, &mut ids);
    collect_table_change(&cs.truncate_ts, &mut ids);
    collect_table_change(&cs.trim_over_bound, &mut ids);
    if let Some(snap) = &cs.initial_flush {
        collect_snap_ids(snap, &mut ids);
    }
    collect_ingest(cs, &mut ids);
    if let Some(snap) = reload {
        collect_snap_ids(snap, &mut ids);
    }
    collect_indexes(cs, &mut ids);
    if let Some(snap) = get_replacing_snap(cs) {
        collect_snap_ids(snap, &mut ids);
    }
    ids
}

/// The references that hold locks.
pub open spec fn refs_with_locks(refs: Seq<pb::TxnFileRef>) -> Seq<pb::TxnFileRef> {
    refs.filter(|r: pb::TxnFileRef| content(r.lock_val_prefix).len() > 0)
}

/// The transaction files of a shard that hold locks.
pub fn collect_snap_lock_txn_file_refs(snap: &pb::Snapshot) -> (res: Vec<pb::TxnFileRef>)
    ensures
        res@ == refs_with_locks(snap.txn_file_refs@),
{
    let refs = snap.txn_file_refs.clone();
    assert(refs@ =~= snap.txn_file_refs@);
    let ghost p = |r: pb::TxnFileRef| content(r.lock_val_prefix).len() > 0;
    let keep = |r: &pb::TxnFileRef| -> (b: bool)
        ensures
            b == (content(r.lock_val_prefix).len() > 0),
        {
            let prefix: &[u8] = &r.lock_val_prefix;
            prefix.len() > 0
        };
    retain_vec(refs, keep, Ghost(p))
}

/// Which files of a shard a reader needs.
#[derive(Clone, Copy, Debug, PartialEq, Eq, Structural)]
pub enum PrepareType {
    /// Those of rows.
    SstOnly,
    /// Those of columns, and the rows that have none yet.
    ColumnarOnly,
    /// All.
    All,
}

impl PrepareType {
    /// Files of rows are needed.
    pub open spec fn rows(self) -> bool {
        self is SstOnly || self is All
    }

    /// Files of columns are needed.
    pub open spec fn columns(self) -> bool {
        self is ColumnarOnly || self is All
    }
}

/// The tables of level 0 that a reader needs: where it reads columns only, those
/// that have no columnar file yet.
pub open spec fn l0s_read(snap: pb::Snapshot, kind: PrepareType) -> Seq<pb::L0Create> {
    if kind.rows() {
        snap.l0_creates@
    } else {
        snap.l0_creates@.filter(|l0: pb::L0Create| snap.unconverted_l0s@.contains(l0.id))
    }
}

/// The files that a reader of a shard needs, `schema` being the meta of the schema
/// file.
pub open spec fn files_read(
    snap: pb::Snapshot,
    kind: PrepareType,
    schema: FileMeta,
) -> Map<u64, FileMeta> {
    let m = with_files(Map::empty(), l0_entries_of(l0s_read(snap, kind)));
    let m = if kind.rows() {
        with_files(
            with_files(m, table_entries_of(snap.table_creates@)),
            blob_entries_of(snap.blob_creates@),
        )
    } else {
        m
    };
    if kind.columns() {
        let m = with_files(m, columnar_entries_of(snap.columnar_creates@));
        let m = match snap.schema_meta {
            Some(sm) => if sm.file_id > 0 {
                m.insert(sm.file_id, schema)
            } else {
                m
            },
            None => m,
        };
        with_vectors(m, snap.vector_indexes@)
    } else {
        m
    }
}

/// The map holds the files that a reader of a shard needs.
pub open spec fn reads(snap: pb::Snapshot, kind: PrepareType, m: Map<u64, FileMeta>) -> bool {
    exists|schema: FileMeta|
        #[trigger] schema.of_schema() && m == files_read(snap, kind, schema)
}

/// The files that a reader of a shard needs.
pub fn collect_ids_from_snapshot(snap: &pb::Snapshot, prepare_type: PrepareType) -> (res: HashMap<
    u64,
    FileMeta,
>)
    ensures
        reads(*snap, prepare_type, res@),
{
    let prepare_sst = matches!(prepare_type, PrepareType::SstOnly | PrepareType::All);
    let prepare_columnar = matches!(prepare_type, PrepareType::ColumnarOnly | PrepareType::All);
    let schema_meta = FileMeta::from_schema_meta();
    let mut ids: HashMap<u64, FileMeta> = HashMap::new();
    let mut l0s = snap.l0_creates.clone();
    assert(l0s@ =~= snap.l0_creates@);
    if prepare_columnar && !prepare_sst {
        let ghost p = |l0: pb::L0Create| snap.unconverted_l0s@.contains(l0.id);
        let unconverted = &snap.unconverted_l0s;
        let keep = |l0: &pb::L0Create| -> (b: bool)
            ensures
                b == unconverted@.contains(l0.id),
            { contains_u64(unconverted, l0.id) };
        l0s = retain_vec(l0s, keep, Ghost(p));
    }
    insert_files(&mut ids, &l0_entries(&l0s));
    if prepare_sst {
        insert_files(&mut ids, &table_entries(&snap.table_creates));
        insert_files(&mut ids, &blob_entries(&snap.blob_creates));
    }
    if prepare_columnar {
        insert_files(&mut ids, &columnar_entries(&snap.columnar_creates));
        if let Some(schema) = &snap.schema_meta {
            if schema.file_id > 0 {
                ids.insert(schema.file_id, schema_meta.clone());
            }
        }
        insert_vectors(&mut ids, &snap.vector_indexes);
    }
    assert(ids@ == files_read(*snap, prepare_type, schema_meta));
    ids
}

} // verus!
