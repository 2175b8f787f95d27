//! Which files a change of a shard brings, and how they are made readable.
use bytes::Bytes;
use kvengine::file_meta::{FileMeta, FileType};
use kvengine::ia::cache::SegmentMap;
use kvengine::pb::{self, new_change_set, StorageClassSpec, TableIdSpan};
use kvengine::prepare::collect::{
    collect_files, collect_ids_from_snapshot, collect_snap_lock_txn_file_refs, PrepareType,
};
use kvengine::prepare::kind::FilePrepareType;
use kvengine::prepare::load::{
    from_change_set, open_local_auto_ia_file, prepare_type_of, table_meta_part,
    write_local_file_if_not_exists, AutoIaOpened, FileStep, ReadCtx, RemoteLoads, TableMetaPart,
    WriteLocal,
};
use kvengine::prepare::local::{
    load_remote_auto_ia_file, LocalRead, MetaOpen, MetaOpenStep, SchemaStep, TableMetaStep,
};
use kvengine::prepare::plan::{prepare_change_set, KeySource, PrepareOpts};
use kvengine::properties::ENCRYPTION_KEY;
use kvengine::prepare::tables::{LoadAction, TableLoads};

fn snapshot() -> pb::Snapshot {
    let mut snap = pb::Snapshot::default();
    snap.outer_end = Bytes::from_static(b"z");
    snap.properties = Some(pb::Properties::default());
    snap.l0_creates.push(pb::L0Create { id: 1, ..Default::default() });
    snap.table_creates.push(pb::TableCreate { id: 2, level: 3, ..Default::default() });
    snap.blob_creates.push(pb::BlobCreate { id: 3, ..Default::default() });
    snap.columnar_creates.push(pb::ColumnarCreate { id: 4, level: 1, ..Default::default() });
    snap
}

fn ids(files: &std::collections::HashMap<u64, FileMeta>) -> Vec<u64> {
    let mut ids: Vec<u64> = files.keys().cloned().collect();
    ids.sort();
    ids
}

#[test]
fn files_of_a_snapshot_are_collected() {
    let mut cs = new_change_set(1, 1);
    cs.snapshot = Some(snapshot());
    assert_eq!(ids(&collect_files(&cs, None, false)), vec![1, 2, 3, 4]);
    assert_eq!(ids(&collect_ids_from_snapshot(&snapshot(), PrepareType::ColumnarOnly)), vec![4]);
    let tables = collect_ids_from_snapshot(&snapshot(), PrepareType::SstOnly);
    assert!(tables.contains_key(&2) && !tables.contains_key(&4));
    assert!(collect_snap_lock_txn_file_refs(&snapshot()).is_empty());
}

#[test]
fn files_of_a_flush_are_collected() {
    let mut cs = new_change_set(1, 1);
    let mut flush = pb::Flush::default();
    flush.l0_create = Some(pb::L0Create { id: 8, ..Default::default() });
    cs.flush = Some(flush);
    assert_eq!(ids(&collect_files(&cs, None, false)), vec![8]);
}

#[test]
fn files_that_are_filtered_out_are_known() {
    let mut cs = new_change_set(1, 1);
    cs.snapshot = Some(snapshot());
    let opts = PrepareOpts {
        prepare_type: FilePrepareType::Local,
        reload_snap: None,
        force_ia: false,
        ignore_columnar_table_load: false,
        encryption_key: None,
    };
    let plan = prepare_change_set(
        &cs,
        &opts,
        StorageClassSpec::default(),
        Some(|shard_id: u64, fm: &FileMeta| -> bool { shard_id == 1 && fm.get_level() != 3 }),
    );
    assert_eq!(ids(&plan.unloaded), vec![2]);
    assert_eq!(ids(&plan.files), vec![1, 3, 4]);
}

#[test]
fn a_shard_that_replaces_another_brings_its_key() {
    let own = Bytes::from_static(b"present");
    let opts = PrepareOpts {
        prepare_type: FilePrepareType::Local,
        reload_snap: None,
        force_ia: false,
        ignore_columnar_table_load: false,
        encryption_key: Some(&own),
    };
    let all = |_: u64, _: &FileMeta| -> bool { true };
    let plan = |cs: &pb::ChangeSet| {
        prepare_change_set(cs, &opts, StorageClassSpec::default(), Some(all)).key
    };
    let mut cs = new_change_set(1, 1);
    assert!(matches!(plan(&cs), KeySource::Present(k) if k == own));
    cs.snapshot = Some(snapshot());
    assert!(matches!(plan(&cs), KeySource::Plain));
    let sealed = Bytes::from_static(b"sealed");
    let mut snap = snapshot();
    let mut props = pb::Properties::default();
    props.keys.push(ENCRYPTION_KEY.to_string());
    props.values.push(sealed.clone());
    snap.properties = Some(props);
    cs.snapshot = Some(snap);
    assert!(matches!(plan(&cs), KeySource::Sealed(k) if k == sealed));
}

fn spec() -> StorageClassSpec {
    StorageClassSpec { specified: true, must_be_ia: false, ia_after_ms: Some(100) }
}

#[test]
fn kinds_follow_the_storage_class() {
    let must = StorageClassSpec { specified: true, must_be_ia: true, ia_after_ms: None };
    assert_eq!(FilePrepareType::from_storage_class_spec(must), FilePrepareType::Ia);
    assert_eq!(FilePrepareType::from_storage_class_spec(spec()), FilePrepareType::AutoIa(spec()));
    let none = FilePrepareType::from_storage_class_spec(StorageClassSpec::default());
    assert_eq!(none, FilePrepareType::Local);
    assert!(!none.not_local());

    let table = FileMeta::new(0, 3, FileType::Sst, b"a", b"b", 0, 10, None, TableIdSpan::default());
    let l0 = FileMeta::new(-1, 0, FileType::Sst, b"a", b"b", 10, 0, None, TableIdSpan::default());
    let auto = FilePrepareType::AutoIa(spec());
    assert_eq!(prepare_type_of(true, auto, &table, false), auto);
    assert_eq!(prepare_type_of(true, auto, &table, true), FilePrepareType::Ia);
    assert_eq!(prepare_type_of(true, auto, &l0, true), FilePrepareType::Local);
    assert_eq!(prepare_type_of(false, auto, &table, true), FilePrepareType::Local);
}

#[test]
fn local_files_are_opened_or_read_anew() {
    assert_eq!(open_local_auto_ia_file(&spec(), 0, false, true), AutoIaOpened::NeedMeta);
    assert_eq!(open_local_auto_ia_file(&spec(), 100, true, false), AutoIaOpened::Remote);
    assert_eq!(open_local_auto_ia_file(&spec(), 99, true, true), AutoIaOpened::Local);
    assert_eq!(open_local_auto_ia_file(&spec(), 99, true, false), AutoIaOpened::NeedData);
    assert_eq!(write_local_file_if_not_exists(None, 5), WriteLocal::Write);
    assert_eq!(write_local_file_if_not_exists(Some(5), 5), WriteLocal::Keep);
    assert_eq!(write_local_file_if_not_exists(Some(4), 5), WriteLocal::InvalidFileSize);
    let ids = TableIdSpan::default();
    let unknown = FileMeta::new(0, 3, FileType::Sst, b"a", b"b", 0, 0, None, ids);
    assert_eq!(table_meta_part(&unknown), TableMetaPart::OfTable);
    let known = FileMeta::new(0, 3, FileType::Sst, b"a", b"b", 0, 7, None, ids);
    assert_eq!(table_meta_part(&known), TableMetaPart::All);
}

#[test]
fn no_more_files_are_read_at_a_time_than_allowed() {
    let mut loads = RemoteLoads::new(2);
    loads.spawn();
    loads.spawn();
    assert_eq!(loads.count(), 2);
    loads.received();
    assert_eq!(loads.count(), 1);
}

#[test]
fn files_that_are_not_local_are_waited_for() {
    let fm = FileMeta::new(0, 3, FileType::Sst, b"a", b"b", 0, 0, None, TableIdSpan::default());
    let files = vec![(1, fm.clone()), (2, fm.clone())];
    let mut loads = TableLoads::new(files, false, false, FilePrepareType::Local, 8);
    assert!(matches!(loads.action(), LoadAction::OpenLocal { id: 1, .. }));
    loads.on_opened(true);
    assert!(matches!(loads.action(), LoadAction::OpenLocal { id: 2, .. }));
    loads.on_opened(false);
    assert!(matches!(loads.action(), LoadAction::Receive));
    loads.on_received();
    assert!(matches!(loads.action(), LoadAction::Done));
}

#[test]
fn a_remote_reader_takes_what_is_cached() {
    let ctx = ReadCtx {
        ia_enabled: true,
        cached_metas: vec![2],
        cached_segments: SegmentMap::new(),
        cached_schemas: vec![],
        write_cf_only: false,
    };
    let table = FileMeta::new(0, 3, FileType::Sst, b"a", b"b", 0, 10, None, TableIdSpan::default());
    assert_eq!(ctx.prepare_file(2, &table), FileStep::CachedMeta);
    assert_eq!(ctx.prepare_file(5, &table), FileStep::ReadMeta);
    let plan = from_change_set(&snapshot(), PrepareType::SstOnly, &ctx);
    assert!(plan.steps.iter().any(|s| s.0 == 2 && s.1 == FileStep::CachedMeta));
}

#[test]
fn table_meta_is_taken_out_of_the_whole_file() {
    let mut open = MetaOpen::new(true, 30, None);
    assert_eq!(open.step, MetaOpenStep::OpenMeta(None));
    open.on_meta_opened(false);
    assert_eq!(open.step, MetaOpenStep::OpenData);
    open.on_data_opened(Some(100));
    assert_eq!(open.step, MetaOpenStep::ReadMeta { off: 30, length: 70 });
    open.on_meta_read(Some(70));
    assert_eq!(open.step, MetaOpenStep::WriteMeta(70));
    open.on_meta_written();
    assert_eq!(open.step, MetaOpenStep::OpenMeta(Some(70)));
    let mut failed = open;
    failed.on_meta_opened(false);
    assert_eq!(failed.step, MetaOpenStep::NotOpened);
    open.on_meta_opened(true);
    assert_eq!(open.step, MetaOpenStep::OpenIa);
    open.on_ia_opened(true);
    assert_eq!(open.step, MetaOpenStep::Opened);
    assert_eq!(MetaOpen::new(false, 30, None).step, MetaOpenStep::NotOpened);
}

#[test]
fn table_meta_that_is_not_local_is_read_and_saved() {
    let step = TableMetaStep::ReadLocal;
    assert_eq!(step.on_local(LocalRead::Failed), TableMetaStep::Failed);
    assert_eq!(step.on_local(LocalRead::Found).on_done(), TableMetaStep::Done);
    let remote = step.on_local(LocalRead::NotFound);
    assert_eq!(remote.on_remote(false), TableMetaStep::Failed);
    let save = remote.on_remote(true);
    assert_eq!(save, TableMetaStep::Save);
    assert_eq!(save.on_done(), TableMetaStep::Note);
    assert_eq!(save.on_done().on_done(), TableMetaStep::Done);
}

#[test]
fn only_the_first_reader_writes_a_schema_file() {
    assert_eq!(SchemaStep::LookUp.on_looked_up(true), SchemaStep::Done);
    let local = SchemaStep::LookUp.on_looked_up(false);
    assert_eq!(local.on_local(true).on_kept(true), SchemaStep::Done);
    let remote = local.on_local(false).on_remote();
    assert_eq!(remote.on_kept(true), SchemaStep::Write);
    assert_eq!(remote.on_kept(false), SchemaStep::Done);
}

#[test]
fn what_is_old_enough_is_not_read_as_a_whole() {
    let parts = load_remote_auto_ia_file(false, &spec(), 99);
    assert!(parts.meta && parts.data);
    let parts = load_remote_auto_ia_file(true, &spec(), 100);
    assert!(!parts.meta && !parts.data);
}
