//! Which files are read before a change set is applied, and how, told by its messages.
use vstd::prelude::*;

use crate::buf::content;
use crate::file_meta::{l0_meta, FileMeta};
use crate::files::{
    blob_entries_of, columnar_entries_of, fts_l0_entries_of, fts_l1_entries_of, fts_l2_entries_of,
    l0_entries_of, table_entries_of, vector_entries_of, with_files, with_vectors,
};
use crate::lists::lemma_filtered;
use crate::meta::laws::{
    names_blob, names_columnar, names_in_indexes, names_l0, names_table, names_vector, only_moves,
};
use crate::meta::seen_laws::{dedicated_named, packed_named};
use crate::pb;
use crate::pb::StorageClassSpec;
use crate::prepare::collect::{
    files_brought, files_read, replacing_snap, with_columnar, with_compaction, with_flush, with_fts,
    with_ingest, with_major, with_snap, with_snap_opt, with_table_change, with_vector_update,
    PrepareType,
};
use crate::prepare::kind::{kind_of_file, FilePrepareType};
use crate::prepare::laws::{lemma_files_added, lemma_vectors_added, lists_file, vectors_list};
use crate::prepare::load::{FileStep, ReadCtx};
use crate::prepare::plan::{is_plan, KeySource, PrepareOpts, PreparePlan};

verus! {

/// The snapshot tells of the file.
pub open spec fn snap_names(s: pb::Snapshot, id: u64) -> bool {
    ||| names_l0(s.l0_creates@, id)
    ||| names_table(s.table_creates@, id)
    ||| names_blob(s.blob_creates@, id)
    ||| names_columnar(s.columnar_creates@, id)
    ||| names_in_indexes(s.vector_indexes@, id)
    ||| packed_named(s.fts_l0_files@, id)
    ||| packed_named(s.fts_l1_files@, id)
    ||| dedicated_named(s.fts_l2_files@, id)
}

/// The change tells of the file as one that replaces others.
pub open spec fn change_names(c: Option<pb::TableChange>, id: u64) -> bool {
    c matches Some(c) && (names_table(c.table_creates@, id) || names_columnar(
        c.columnar_creates@,
        id,
    ))
}

/// The compaction tells of the file, and it has to be read: tables that only move down are
/// there already, unless they leave level 0 and files may be remote.
pub open spec fn compaction_names(c: Option<pb::Compaction>, remote: bool, id: u64) -> bool {
    &&& c is Some
    &&& if only_moves(c->0) {
        c->0.level == 0 && remote && names_table(c->0.table_creates@, id)
    } else {
        names_table(c->0.table_creates@, id) || names_blob(c->0.blob_tables@, id)
    }
}

/// Some message of the change set tells of the file as a new one.
pub open spec fn tells_of_file(
    cs: pb::ChangeSet,
    reload: Option<pb::Snapshot>,
    remote: bool,
    id: u64,
) -> bool {
    ||| cs.flush matches Some(f) && (names_l0(f.l0_creates@, id) || (f.l0_create is Some
        && f.l0_create->0.id == id))
    ||| compaction_names(cs.compaction, remote, id)
    ||| change_names(cs.destroy_range, id)
    ||| change_names(cs.truncate_ts, id)
    ||| change_names(cs.trim_over_bound, id)
    ||| cs.initial_flush matches Some(s) && snap_names(s, id)
    ||| cs.ingest_files matches Some(f) && (names_l0(f.l0_creates@, id) || names_table(
        f.table_creates@,
        id,
    ) || names_blob(f.blob_creates@, id))
    ||| cs.major_compaction matches Some(c) && (names_table(
        c.sstable_change.table_creates@,
        id,
    ) || names_blob(c.new_blob_tables@, id))
    ||| reload matches Some(s) && snap_names(s, id)
    ||| cs.columnar_compaction matches Some(c) && names_columnar(
        c.columnar_change.columnar_creates@,
        id,
    )
    ||| cs.update_vector_index matches Some(u) && names_vector(u.added@, id)
    ||| cs.fts_update matches Some(u) && (packed_named(u.l0_add_files@, id) || packed_named(
        u.l1_add_files@,
        id,
    ) || dedicated_named(u.l2_add_files@, id))
    ||| cs.restore_shard matches Some(s) && snap_names(s, id)
    ||| cs.restore_shard is None && cs.snapshot is Some && snap_names(cs.snapshot->0, id)
}

proof fn lemma_lists(
    l0s: Seq<pb::L0Create>,
    tables: Seq<pb::TableCreate>,
    blobs: Seq<pb::BlobCreate>,
    columns: Seq<pb::ColumnarCreate>,
    vectors: Seq<pb::VectorIndexFile>,
    id: u64,
)
    ensures
        lists_file(l0_entries_of(l0s), id) == names_l0(l0s, id),
        lists_file(table_entries_of(tables), id) == names_table(tables, id),
        lists_file(blob_entries_of(blobs), id) == names_blob(blobs, id),
        lists_file(columnar_entries_of(columns), id) == names_columnar(columns, id),
        lists_file(vector_entries_of(vectors), id) == names_vector(vectors, id),
{
    let a = l0_entries_of(l0s);
    if lists_file(a, id) {
        let i = choose|i: int| 0 <= i < a.len() && (#[trigger] a[i]).0 == id;
        assert(l0s[i].id == id);
    }
    if names_l0(l0s, id) {
        let i = choose|i: int| 0 <= i < l0s.len() && (#[trigger] l0s[i]).id == id;
        assert(a[i].0 == id);
    }
    let b = table_entries_of(tables);
    if lists_file(b, id) {
        let i = choose|i: int| 0 <= i < b.len() && (#[trigger] b[i]).0 == id;
        assert(tables[i].id == id);
    }
    if names_table(tables, id) {
        let i = choose|i: int| 0 <= i < tables.len() && (#[trigger] tables[i]).id == id;
        assert(b[i].0 == id);
    }
    let c = blob_entries_of(blobs);
    if lists_file(c, id) {
        let i = choose|i: int| 0 <= i < c.len() && (#[trigger] c[i]).0 == id;
        assert(blobs[i].id == id);
    }
    if names_blob(blobs, id) {
        let i = choose|i: int| 0 <= i < blobs.len() && (#[trigger] blobs[i]).id == id;
        assert(c[i].0 == id);
    }
    let d = columnar_entries_of(columns);
    if lists_file(d, id) {
        let i = choose|i: int| 0 <= i < d.len() && (#[trigger] d[i]).0 == id;
        assert(columns[i].id == id);
    }
    if names_columnar(columns, id) {
        let i = choose|i: int| 0 <= i < columns.len() && (#[trigger] columns[i]).id == id;
        assert(d[i].0 == id);
    }
    let e = vector_entries_of(vectors);
    if lists_file(e, id) {
        let i = choose|i: int| 0 <= i < e.len() && (#[trigger] e[i]).0 == id;
        assert(vectors[i].id == id);
    }
    if names_vector(vectors, id) {
        let i = choose|i: int| 0 <= i < vectors.len() && (#[trigger] vectors[i]).id == id;
        assert(e[i].0 == id);
    }
}

proof fn lemma_text_lists(
    l0s: Seq<pb::FtsPackedFileInfo>,
    l1s: Seq<pb::FtsPackedFileInfo>,
    l2s: Seq<pb::FtsDedFileInfo>,
    id: u64,
)
    ensures
        lists_file(fts_l0_entries_of(l0s), id) == packed_named(l0s, id),
        lists_file(fts_l1_entries_of(l1s), id) == packed_named(l1s, id),
        lists_file(fts_l2_entries_of(l2s), id) == dedicated_named(l2s, id),
{
    let a = fts_l0_entries_of(l0s);
    if lists_file(a, id) {
        let i = choose|i: int| 0 <= i < a.len() && (#[trigger] a[i]).0 == id;
        assert(l0s[i].id == id);
    }
    if packed_named(l0s, id) {
        let i = choose|i: int| 0 <= i < l0s.len() && (#[trigger] l0s[i]).id == id;
        assert(a[i].0 == id);
    }
    let b = fts_l1_entries_of(l1s);
    if lists_file(b, id) {
        let i = choose|i: int| 0 <= i < b.len() && (#[trigger] b[i]).0 == id;
        assert(l1s[i].id == id);
    }
    if packed_named(l1s, id) {
        let i = choose|i: int| 0 <= i < l1s.len() && (#[trigger] l1s[i]).id == id;
        assert(b[i].0 == id);
    }
    let c = fts_l2_entries_of(l2s);
    if lists_file(c, id) {
        let i = choose|i: int| 0 <= i < c.len() && (#[trigger] c[i]).0 == id;
        assert(l2s[i].id == id);
    }
    if dedicated_named(l2s, id) {
        let i = choose|i: int| 0 <= i < l2s.len() && (#[trigger] l2s[i]).id == id;
        assert(c[i].0 == id);
    }
}

proof fn lemma_index_lists(v: Seq<pb::VectorIndex>, id: u64)
    ensures
        vectors_list(v, id) == names_in_indexes(v, id),
{
    let none = Seq::<pb::L0Create>::empty();
    if vectors_list(v, id) {
        let i = choose|i: int|
            0 <= i < v.len() && lists_file(vector_entries_of((#[trigger] v[i]).files@), id);
        lemma_lists(none, Seq::empty(), Seq::empty(), Seq::empty(), v[i].files@, id);
        assert(names_vector(v[i].files@, id));
    }
    if names_in_indexes(v, id) {
        let i = choose|i: int| 0 <= i < v.len() && names_vector((#[trigger] v[i]).files@, id);
        lemma_lists(none, Seq::empty(), Seq::empty(), Seq::empty(), v[i].files@, id);
        assert(lists_file(vector_entries_of(v[i].files@), id));
    }
}

proof fn lemma_snap(m: Map<u64, FileMeta>, s: pb::Snapshot, id: u64)
    ensures
        with_snap(m, s).contains_key(id) == (m.contains_key(id) || snap_names(s, id)),
{
    lemma_lists(
        s.l0_creates@,
        s.table_creates@,
        s.blob_creates@,
        s.columnar_creates@,
        Seq::empty(),
        id,
    );
    lemma_text_lists(s.fts_l0_files@, s.fts_l1_files@, s.fts_l2_files@, id);
    lemma_index_lists(s.vector_indexes@, id);
    let a = with_files(m, blob_entries_of(s.blob_creates@));
    lemma_files_added(m, blob_entries_of(s.blob_creates@), id);
    let b = with_files(a, l0_entries_of(s.l0_creates@));
    lemma_files_added(a, l0_entries_of(s.l0_creates@), id);
    let c = with_files(b, table_entries_of(s.table_creates@));
    lemma_files_added(b, table_entries_of(s.table_creates@), id);
    let d = with_files(c, columnar_entries_of(s.columnar_creates@));
    lemma_files_added(c, columnar_entries_of(s.columnar_creates@), id);
    let e = with_vectors(d, s.vector_indexes@);
    lemma_vectors_added(d, s.vector_indexes@, id);
    let f = with_files(e, fts_l0_entries_of(s.fts_l0_files@));
    lemma_files_added(e, fts_l0_entries_of(s.fts_l0_files@), id);
    let g = with_files(f, fts_l1_entries_of(s.fts_l1_files@));
    lemma_files_added(f, fts_l1_entries_of(s.fts_l1_files@), id);
    lemma_files_added(g, fts_l2_entries_of(s.fts_l2_files@), id);
}

proof fn lemma_snap_opt(m: Map<u64, FileMeta>, s: Option<pb::Snapshot>, id: u64)
    ensures
        with_snap_opt(m, s).contains_key(id) == (m.contains_key(id) || s is Some && snap_names(
            s->0,
            id,
        )),
{
    if let Some(snap) = s {
        lemma_snap(m, snap, id);
    }
}

proof fn lemma_change(m: Map<u64, FileMeta>, c: Option<pb::TableChange>, id: u64)
    ensures
        with_table_change(m, c).contains_key(id) == (m.contains_key(id) || change_names(c, id)),
{
    if let Some(c) = c {
        let t = table_entries_of(c.table_creates@);
        lemma_lists(
            Seq::empty(),
            c.table_creates@,
            Seq::empty(),
            c.columnar_creates@,
            Seq::empty(),
            id,
        );
        lemma_files_added(m, t, id);
        lemma_files_added(with_files(m, t), columnar_entries_of(c.columnar_creates@), id);
    }
}

proof fn lemma_tables(m: Map<u64, FileMeta>, cs: pb::ChangeSet, remote: bool, id: u64)
    ensures
        with_flush(m, cs.flush).contains_key(id) == (m.contains_key(id) || cs.flush is Some && (
        names_l0(cs.flush->0.l0_creates@, id) || (cs.flush->0.l0_create is Some
            && cs.flush->0.l0_create->0.id == id))),
        with_compaction(m, cs.compaction, remote).contains_key(id) == (m.contains_key(id)
            || compaction_names(cs.compaction, remote, id)),
{
    if let Some(f) = cs.flush {
        let s = l0_entries_of(f.l0_creates@);
        lemma_lists(f.l0_creates@, Seq::empty(), Seq::empty(), Seq::empty(), Seq::empty(), id);
        match f.l0_create {
            Some(l0) => {
                lemma_files_added(m.insert(l0.id, l0_meta(l0)), s, id);
            },
            None => {
                lemma_files_added(m, s, id);
            },
        }
    }
    if let Some(c) = cs.compaction {
        let t = table_entries_of(c.table_creates@);
        let b = blob_entries_of(c.blob_tables@);
        lemma_lists(
            Seq::empty(),
            c.table_creates@,
            c.blob_tables@,
            Seq::empty(),
            Seq::empty(),
            id,
        );
        lemma_files_added(m, t, id);
        lemma_files_added(with_files(m, t), b, id);
    }
}

proof fn lemma_ingest(m: Map<u64, FileMeta>, cs: pb::ChangeSet, id: u64)
    ensures
        with_ingest(m, cs.ingest_files).contains_key(id) == (m.contains_key(id)
            || cs.ingest_files is Some && (names_l0(cs.ingest_files->0.l0_creates@, id)
            || names_table(cs.ingest_files->0.table_creates@, id) || names_blob(
            cs.ingest_files->0.blob_creates@,
            id,
        ))),
        with_major(m, cs.major_compaction).contains_key(id) == (m.contains_key(id)
            || cs.major_compaction is Some && (names_table(
            cs.major_compaction->0.sstable_change.table_creates@,
            id,
        ) || names_blob(cs.major_compaction->0.new_blob_tables@, id))),
{
    if let Some(f) = cs.ingest_files {
        let a = l0_entries_of(f.l0_creates@);
        let b = table_entries_of(f.table_creates@);
        lemma_lists(
            f.l0_creates@,
            f.table_creates@,
            f.blob_creates@,
            Seq::empty(),
            Seq::empty(),
            id,
        );
        lemma_files_added(m, a, id);
        lemma_files_added(with_files(m, a), b, id);
        lemma_files_added(
            with_files(with_files(m, a), b),
            blob_entries_of(f.blob_creates@),
            id,
        );
    }
    if let Some(c) = cs.major_compaction {
        let a = table_entries_of(c.sstable_change.table_creates@);
        lemma_lists(
            Seq::empty(),
            c.sstable_change.table_creates@,
            c.new_blob_tables@,
            Seq::empty(),
            Seq::empty(),
            id,
        );
        lemma_files_added(m, a, id);
        lemma_files_added(with_files(m, a), blob_entries_of(c.new_blob_tables@), id);
    }
}

proof fn lemma_indexes(m: Map<u64, FileMeta>, cs: pb::ChangeSet, id: u64)
    ensures
        with_columnar(m, cs.columnar_compaction).contains_key(id) == (m.contains_key(id)
            || cs.columnar_compaction is Some && names_columnar(
            cs.columnar_compaction->0.columnar_change.columnar_creates@,
            id,
        )),
        with_vector_update(m, cs.update_vector_index).contains_key(id) == (m.contains_key(id)
            || cs.update_vector_index is Some && names_vector(
            cs.update_vector_index->0.added@,
            id,
        )),
        with_fts(m, cs.fts_update).contains_key(id) == (m.contains_key(id) || cs.fts_update is Some
            && (packed_named(cs.fts_update->0.l0_add_files@, id) || packed_named(
            cs.fts_update->0.l1_add_files@,
            id,
        ) || dedicated_named(cs.fts_update->0.l2_add_files@, id))),
{
    if let Some(c) = cs.columnar_compaction {
        let a = c.columnar_change.columnar_creates@;
        lemma_lists(Seq::empty(), Seq::empty(), Seq::empty(), a, Seq::empty(), id);
        lemma_files_added(m, columnar_entries_of(a), id);
    }
    if let Some(u) = cs.update_vector_index {
        lemma_lists(Seq::empty(), Seq::empty(), Seq::empty(), Seq::empty(), u.added@, id);
        lemma_files_added(m, vector_entries_of(u.added@), id);
    }
    if let Some(f) = cs.fts_update {
        lemma_text_lists(f.l0_add_files@, f.l1_add_files@, f.l2_add_files@, id);
        let a = with_files(m, fts_l0_entries_of(f.l0_add_files@));
        lemma_files_added(m, fts_l0_entries_of(f.l0_add_files@), id);
        let b = with_files(a, fts_l1_entries_of(f.l1_add_files@));
        lemma_files_added(a, fts_l1_entries_of(f.l1_add_files@), id);
        lemma_files_added(b, fts_l2_entries_of(f.l2_add_files@), id);
    }
}

/// A file is brought if and only if a message of the change set, or the shard that is to be read
/// again, tells of it as a new one. A shard that is restored counts before a snapshot.
pub proof fn law_brought_files_are_told_of(
    cs: pb::ChangeSet,
    reload: Option<pb::Snapshot>,
    remote: bool,
    id: u64,
)
    ensures
        files_brought(cs, reload, remote).contains_key(id) <==> tells_of_file(
            cs,
            reload,
            remote,
            id,
        ),
{
    let e = Map::<u64, FileMeta>::empty();
    lemma_tables(e, cs, remote, id);
    let m1 = with_flush(e, cs.flush);
    lemma_tables(m1, cs, remote, id);
    let m2 = with_compaction(m1, cs.compaction, remote);
    lemma_change(m2, cs.destroy_range, id);
    let m3 = with_table_change(m2, cs.destroy_range);
    lemma_change(m3, cs.truncate_ts, id);
    let m4 = with_table_change(m3, cs.truncate_ts);
    lemma_change(m4, cs.trim_over_bound, id);
    let m5 = with_table_change(m4, cs.trim_over_bound);
    lemma_snap_opt(m5, cs.initial_flush, id);
    let m6 = with_snap_opt(m5, cs.initial_flush);
    lemma_ingest(m6, cs, id);
    let m7 = with_ingest(m6, cs.ingest_files);
    lemma_ingest(m7, cs, id);
    let m8 = with_major(m7, cs.major_compaction);
    lemma_snap_opt(m8, reload, id);
    let m9 = with_snap_opt(m8, reload);
    lemma_indexes(m9, cs, id);
    let m10 = with_columnar(m9, cs.columnar_compaction);
    lemma_indexes(m10, cs, id);
    let m11 = with_vector_update(m10, cs.update_vector_index);
    lemma_indexes(m11, cs, id);
    let m12 = with_fts(m11, cs.fts_update);
    lemma_snap_opt(m12, replacing_snap(cs), id);
}

/// The file is one of columns or of an index on them.
pub open spec fn is_of_columns(fm: FileMeta) -> bool {
    fm.file_type is Columnar || fm.file_type is VectorIndex || fm.file_type is FtsPackedFile
        || fm.file_type is FtsDedicatedFile
}

/// A plan without filter reads every file that the change set tells of, and no other; but for
/// those of columns, where they are to be ignored. Nothing is held back.
pub proof fn law_planned_files_are_told_of<F: Fn(u64, &FileMeta) -> bool>(
    cs: pb::ChangeSet,
    opts: PrepareOpts<'_>,
    snap_class: StorageClassSpec,
    table_filter: Option<F>,
    plan: PreparePlan,
    id: u64,
)
    requires
        is_plan(cs, opts, snap_class, table_filter, plan),
        opts.reload_snap is None,
    ensures
        ({
            let remote = !(opts.prepare_type is Local) || opts.force_ia;
            &&& plan.files@.contains_key(id) || plan.unloaded@.contains_key(id) ==> tells_of_file(
                cs,
                None,
                remote,
                id,
            )
            &&& !(plan.files@.contains_key(id) && plan.unloaded@.contains_key(id))
            &&& !opts.ignore_columnar_table_load && tells_of_file(cs, None, remote, id)
                ==> plan.files@.contains_key(id) || plan.unloaded@.contains_key(id)
            &&& opts.ignore_columnar_table_load && plan.files@.contains_key(id) ==> !is_of_columns(
                plan.files@[id],
            )
            &&& table_filter is None ==> !plan.unloaded@.contains_key(id)
        }),
{
    let remote = !(opts.prepare_type is Local) || opts.force_ia;
    law_brought_files_are_told_of(cs, None, remote, id);
    if plan.unloaded@.contains_key(id) {
        assert(plan.unloaded@.dom().contains(id));
    }
}

/// A plan says how the files are made readable, with which key, which schema file is read and
/// which transaction files: as the shard says that replaces the present one, if there is one.
pub proof fn law_plan_follows_the_replacing_shard<F: Fn(u64, &FileMeta) -> bool>(
    cs: pb::ChangeSet,
    opts: PrepareOpts<'_>,
    snap_class: StorageClassSpec,
    table_filter: Option<F>,
    plan: PreparePlan,
    r: pb::TxnFileRef,
)
    requires
        is_plan(cs, opts, snap_class, table_filter, plan),
    ensures
        cs.restore_shard is None && cs.snapshot is None ==> {
            &&& plan.prepare_type == opts.prepare_type
            &&& plan.lock_txn_file_refs@.len() == 0
            &&& opts.encryption_key matches Some(k) ==> plan.key == KeySource::Present(*k)
            &&& opts.encryption_key is None ==> plan.key is Plain
        },
        cs.restore_shard is Some || cs.snapshot is Some ==> {
            let s = if cs.restore_shard is Some {
                cs.restore_shard->0
            } else {
                cs.snapshot->0
            };
            &&& snap_class.must_be_ia ==> plan.prepare_type is Ia
            &&& !snap_class.must_be_ia && snap_class.ia_after_ms is Some ==> plan.prepare_type
                == FilePrepareType::AutoIa(snap_class)
            &&& !snap_class.must_be_ia && snap_class.ia_after_ms is None
                ==> plan.prepare_type is Local
            &&& plan.lock_txn_file_refs@.contains(r) <==> s.txn_file_refs@.contains(r) && content(
                r.lock_val_prefix,
            ).len() > 0
            &&& s.schema_meta matches Some(m) ==> (m.file_id != 0 ==> plan.schema_file_id == Some(
                m.file_id,
            )) && (m.file_id == 0 ==> plan.schema_file_id is None)
        },
        cs.restore_shard is None && cs.snapshot is None && cs.update_schema_meta is Some
            && cs.update_schema_meta->0.file_id != 0 ==> plan.schema_file_id == Some(
            cs.update_schema_meta->0.file_id,
        ),
{
    if let Some(s) = replacing_snap(cs) {
        lemma_filtered(
            s.txn_file_refs@,
            |r: pb::TxnFileRef| content(r.lock_val_prefix).len() > 0,
            r,
        );
    }
}

/// A reader of rows needs the tables and blob tables of a snapshot, one of columns its columnar
/// files, vector indexes and schema file and the tables of level 0 without columnar file, and
/// one of both all of them; and no others.
pub proof fn law_reader_needs_the_files_of_its_kind(
    snap: pb::Snapshot,
    kind: PrepareType,
    schema: FileMeta,
    id: u64,
)
    ensures
        ({
            let needs = files_read(snap, kind, schema).contains_key(id);
            let rows = names_l0(snap.l0_creates@, id) || names_table(snap.table_creates@, id)
                || names_blob(snap.blob_creates@, id);
            let columns = names_columnar(snap.columnar_creates@, id) || names_in_indexes(
                snap.vector_indexes@,
                id,
            ) || (snap.schema_meta is Some && id > 0 && snap.schema_meta->0.file_id == id);
            let waiting = names_l0(snap.l0_creates@, id) && snap.unconverted_l0s@.contains(id);
            &&& kind is SstOnly ==> (needs <==> rows)
            &&& kind is ColumnarOnly ==> (needs <==> waiting || columns)
            &&& kind is All ==> (needs <==> rows || columns)
        }),
{
    let keep = |l0: pb::L0Create| snap.unconverted_l0s@.contains(l0.id);
    let l0s = if kind is ColumnarOnly {
        snap.l0_creates@.filter(keep)
    } else {
        snap.l0_creates@
    };
    let e = Map::<u64, FileMeta>::empty();
    lemma_lists(
        l0s,
        snap.table_creates@,
        snap.blob_creates@,
        snap.columnar_creates@,
        Seq::empty(),
        id,
    );
    lemma_index_lists(snap.vector_indexes@, id);
    let a = with_files(e, l0_entries_of(l0s));
    lemma_files_added(e, l0_entries_of(l0s), id);
    let b = with_files(a, table_entries_of(snap.table_creates@));
    lemma_files_added(a, table_entries_of(snap.table_creates@), id);
    let c = with_files(b, blob_entries_of(snap.blob_creates@));
    lemma_files_added(b, blob_entries_of(snap.blob_creates@), id);
    let rows = if kind is ColumnarOnly {
        a
    } else {
        c
    };
    let d = with_files(rows, columnar_entries_of(snap.columnar_creates@));
    lemma_files_added(rows, columnar_entries_of(snap.columnar_creates@), id);
    let f = match snap.schema_meta {
        Some(sm) => if sm.file_id > 0 {
            d.insert(sm.file_id, schema)
        } else {
            d
        },
        None => d,
    };
    lemma_vectors_added(f, snap.vector_indexes@, id);
    if kind is ColumnarOnly {
        if names_l0(l0s, id) {
            let i = choose|i: int| 0 <= i < l0s.len() && (#[trigger] l0s[i]).id == id;
            assert(l0s.contains(l0s[i]));
            lemma_filtered(snap.l0_creates@, keep, l0s[i]);
            let j = choose|j: int|
                0 <= j < snap.l0_creates@.len() && snap.l0_creates@[j] == l0s[i];
            assert(snap.l0_creates@[j].id == id);
        }
        if names_l0(snap.l0_creates@, id) && snap.unconverted_l0s@.contains(id) {
            let j = choose|j: int|
                0 <= j < snap.l0_creates@.len() && (#[trigger] snap.l0_creates@[j]).id == id;
            assert(snap.l0_creates@.contains(snap.l0_creates@[j]));
            lemma_filtered(snap.l0_creates@, keep, snap.l0_creates@[j]);
            let i = choose|i: int| 0 <= i < l0s.len() && l0s[i] == snap.l0_creates@[j];
            assert(l0s[i].id == id);
        }
    }
}

/// Parts of the file can be read: it is one of columns, a blob table, or a table of committed
/// data below level 0.
pub open spec fn parts_can_be_read(fm: FileMeta) -> bool {
    is_of_columns(fm) || fm.file_type is Blob || (fm.file_type is Sst && fm.cf == 0 && fm.level > 0)
}

/// How a file is made readable: files of columns are remote; of tables only those of committed
/// data below level 0 may be, as the shard says, or all of them where that is forced; all other
/// files are local.
pub proof fn law_only_files_with_parts_are_remote(
    kind: FilePrepareType,
    fm: FileMeta,
    force_ia: bool,
)
    ensures
        is_of_columns(fm) ==> kind_of_file(kind, fm, force_ia) is Ia,
        fm.file_type is Sst && fm.cf == 0 && fm.level > 0 && force_ia ==> kind_of_file(
            kind,
            fm,
            force_ia,
        ) is Ia,
        fm.file_type is Sst && fm.cf == 0 && fm.level > 0 && !force_ia ==> kind_of_file(
            kind,
            fm,
            force_ia,
        ) == kind,
        !is_of_columns(fm) && !(fm.file_type is Sst && fm.cf == 0 && fm.level > 0) ==> kind_of_file(
            kind,
            fm,
            force_ia,
        ) is Local,
{
}

/// Data is kept remote always, from an age on, or never; once it is, it stays so as it gets
/// older.
pub proof fn law_old_data_stays_remote(spec: StorageClassSpec, age: u64, later: u64)
    requires
        age <= later,
    ensures
        spec.class_at(age) is Ia ==> spec.class_at(later) is Ia,
        spec.must_be_ia ==> spec.class_at(age) is Ia,
        !spec.must_be_ia && spec.ia_after_ms is None ==> !(spec.class_at(age) is Ia),
        !spec.must_be_ia && spec.ia_after_ms is Some ==> (spec.class_at(age) is Ia <==> age
            >= spec.ia_after_ms->0),
        spec.class_at(age) is Ia ==> spec.spec_can_be_ia(),
{
}

/// What a reader does for a file: what is cached is not read; a file is left out only where
/// just committed data is read and it has none; parts are read only where they can be, and a
/// table of level 0 is read as one segment.
pub proof fn law_cached_files_are_not_read(ctx: ReadCtx, id: u64, fm: FileMeta)
    ensures
        ({
            let step = ctx.step(id, fm);
            &&& ctx.ia_enabled && parts_can_be_read(fm) && ctx.cached_metas@.contains(id)
                ==> step is CachedMeta
            &&& step is CachedMeta ==> ctx.cached_metas@.contains(id)
            &&& step is CachedSchema ==> ctx.cached_schemas@.contains(id)
            &&& fm.file_type is Schema && ctx.cached_schemas@.contains(id) ==> step is CachedSchema
            &&& step is Skip ==> ctx.write_cf_only && fm.cf != 0 && fm.level != 0
            &&& step is ReadMeta ==> ctx.ia_enabled && parts_can_be_read(fm)
                && !ctx.cached_metas@.contains(id)
            &&& step matches FileStep::CachedSegment(s) ==> ctx.cached_segments@.contains_key(s)
                && s.file_id == id && s.start_off == 0 && s.end_off == fm.l0_size as u64
                && fm.l0_size > 0
            &&& step matches FileStep::ReadSegment(s) ==> !ctx.cached_segments@.contains_key(s)
                && s.file_id == id && s.start_off == 0 && s.end_off == fm.l0_size as u64
                && fm.file_type is Sst && fm.level == 0 && fm.l0_size > 0
            &&& ctx.ia_enabled && fm.file_type is Sst && fm.level == 0 && fm.l0_size > 0
                ==> step is CachedSegment || step is ReadSegment
            &&& !ctx.ia_enabled ==> step is CachedSchema || step is Skip || step is ReadWhole
            &&& step is ReadWhole ==> !ctx.ia_enabled || !parts_can_be_read(fm)
            &&& !ctx.write_cf_only || fm.cf == 0 || fm.level == 0 ==> !(step is Skip)
        }),
{
}

} // verus!
