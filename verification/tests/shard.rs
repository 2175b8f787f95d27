//! Shards: their data, splits and merges, and what is to be compacted.
use std::collections::HashMap;

use bytes::Bytes;
use kvengine::bound::InnerKey;
use kvengine::file_meta::{FileMeta, FileType, SnapVersion};
use kvengine::keyspace::GLOBAL_SHARD_END_KEY;
use kvengine::pb::{self, StorageClassSpec, TableIdSpan};
use kvengine::properties::{DEL_PREFIXES_KEY, MANUAL_MAJOR_COMPACTION, TRIM_OVER_BOUND};
use kvengine::range::ShardRange;
use kvengine::limiter::{LimiterOptions, RegionLimiter};
use kvengine::read::columnar::estimated_range_blocks_size;
use kvengine::read::snap::SnapAccessCore;
use kvengine::shard::builder::ShardDataBuilder;
use kvengine::shard::data::{
    new_cfs, BlobTable, ColumnarLevels, FtsFile, L0Table, MemTable, ShardData, TxnFile,
};
use kvengine::shard::ingest::SnapshotTables;
use kvengine::shard::levels::{
    sort_tables, BlockIndex, LevelHandler, ShardCf, ShardCfBuilder, SsTable,
};
use kvengine::shard::load::OpenedFiles;
use kvengine::shard::merge::{check_merge, MergeDenied, MergeSource};
use kvengine::shard::ops::{GcStats, MajorCompactionType, Shard, ShardPendingOperations};
use kvengine::shard::priority::{
    CompactionPriority, PriorityOptions, Scores, VectorIndexBuildOptions,
};
use kvengine::shard::split_keys::{
    evenly_split_keys, suggest_split_key, TableBuilderOptions,
};
use kvengine::shard::state::{
    gen_rand_schedule_del_range_time, refreshed_states, IdVer, VersionChange,
};
use kvengine::shard::stats::LevelStatsLite;
use kvengine::{LOCK_CF, WRITE_CF};

fn sst(id: u64, smallest: &'static [u8], biggest: &'static [u8]) -> SsTable {
    SsTable {
        id,
        smallest: Bytes::from_static(smallest),
        biggest: Bytes::from_static(biggest),
        size: 100,
        kv_size: 80,
        entries: 10,
        tombs: 2,
        max_ts: id,
        max_lock_ts: 0,
        blob_size: 0,
        sync: true,
        storage_class_ia: false,
        table_ids: TableIdSpan::default(),
    }
}

fn l0(id: u64, version: u64, smallest: &'static [u8], biggest: &'static [u8]) -> L0Table {
    L0Table {
        id,
        smallest: Bytes::from_static(smallest),
        biggest: Bytes::from_static(biggest),
        size: 50,
        entries: 5,
        kv_size: 40,
        max_ts: version,
        version: SnapVersion { version },
        blob_size: 0,
        table_ids: TableIdSpan::default(),
    }
}

fn blob(id: u64, blob_size: u64) -> BlobTable {
    let key = Bytes::from_static(b"b");
    BlobTable {
        id,
        smallest: key.clone(),
        biggest: key,
        blob_size,
        table_ids: TableIdSpan::default(),
    }
}

fn shard(id: u64, start: &[u8], end: &[u8]) -> Shard {
    let props = pb::Properties { shard_id: id, ..Default::default() };
    let range = ShardRange::new(start, end);
    let inner_key_off = range.keyspace_prefix_len();
    let mut shard = Shard::new(1, &props, 2, range, inner_key_off, 0, StorageClassSpec::default());
    shard.initial_flushed = true;
    shard
}

#[test]
fn tables_of_a_level_are_found_by_key() {
    let tables = sort_tables(&vec![sst(3, b"m", b"p"), sst(1, b"a", b"c"), sst(2, b"e", b"g")]);
    let ids: Vec<u64> = tables.iter().map(|t| t.id).collect();
    assert_eq!(ids, vec![1, 2, 3]);
    let level = LevelHandler::new(2, tables);
    assert!(level.check_order());
    assert_eq!(level.max_ts, 3);
    assert_eq!(level.get_table(InnerKey::from_inner_buf(b"f")).unwrap().id, 2);
    assert_eq!(level.get_table(InnerKey::from_inner_buf(b"h")).unwrap().id, 3);
    assert!(level.get_table(InnerKey::from_inner_buf(b"q")).is_none());
    assert_eq!(level.get_table_by_id(3).unwrap().id, 3);
    let bound = level.get_data_bound().unwrap();
    assert_eq!((bound.lower_bound.deref(), bound.upper_bound.deref()), (&b"a"[..], &b"p"[..]));
    let wrong = LevelHandler::new(2, vec![sst(2, b"e", b"g"), sst(1, b"a", b"c")]);
    assert!(!wrong.check_order());
}

#[test]
fn a_column_family_is_built_of_tables() {
    let mut builder = ShardCfBuilder::new(WRITE_CF);
    builder.add_table(sst(2, b"e", b"g"), 1);
    builder.add_table(sst(1, b"a", b"c"), 1);
    builder.add_table(sst(3, b"a", b"z"), 3);
    let cf = builder.build();
    assert_eq!(cf.levels.len(), 3);
    assert_eq!(cf.get_level(1).tables.len(), 2);
    assert_eq!(cf.get_level(1).tables[0].id, 1);
    assert_eq!(cf.get_level(3).tables[0].id, 3);
    assert_eq!(cf.size(), 300);
    assert!(cf.is_sync());
    assert_eq!(ShardCf::new(LOCK_CF).levels.len(), 2);
}

#[test]
fn data_counts_its_tables() {
    let mut data = ShardData::new_empty(ShardRange::new(b"a", b"z"), 0);
    assert!(data.all_persisted());
    data.l0_tbls = vec![l0(9, 90, b"b", b"c"), l0(8, 80, b"d", b"e")];
    data.cfs[WRITE_CF].set_level(LevelHandler::new(1, vec![sst(3, b"b", b"zz")]));
    assert_eq!(data.get_l0_total_size(), 100);
    let stats = data.get_l0_stats();
    assert_eq!((stats.data_size, stats.entries, stats.max_ts), (100, 10, 90));
    assert!(data.has_file_over_bound_data());
    let mut all = data.get_all_sst_files();
    all.sort();
    assert_eq!(all, vec![3, 8, 9]);
    let level = data.cfs[WRITE_CF].levels[0].copy();
    let stats = data.get_level_stats(WRITE_CF, &level, &StorageClassSpec::default());
    assert_eq!(stats.max_ts, 3);
}

#[test]
fn pending_operations_come_from_properties() {
    let mut ops = ShardPendingOperations::new(0);
    let class = StorageClassSpec::default();
    assert_eq!(ops.truncate_ts, None);
    ops.set_property(TRIM_OVER_BOUND, b"1", 0, 5, class);
    assert!(ops.trim_over_bound);
    ops.set_property(MANUAL_MAJOR_COMPACTION, &[1], 0, 5, class);
    assert_eq!(ops.manual_major_compaction, MajorCompactionType::Enable);
    ops.set_property(MANUAL_MAJOR_COMPACTION, &[2], 0, 5, class);
    assert_eq!(ops.manual_major_compaction, MajorCompactionType::EnableColumnar);
    ops.set_property(MANUAL_MAJOR_COMPACTION, b"", 0, 5, class);
    assert_eq!(ops.manual_major_compaction, MajorCompactionType::Disable);
    ops.merge_del_prefix(b"abc", 5);
    assert_eq!(ops.del_prefixes.prefixes, vec![b"abc".to_vec()]);
    assert!(!ops.del_prefixes.after_scheduled_time(5));
    assert!(ops.del_prefixes.after_scheduled_time(6));
    // A prefix that is deleted already changes nothing but the time.
    ops.merge_del_prefix(b"abcd", 9);
    assert_eq!(ops.del_prefixes.prefixes, vec![b"abc".to_vec()]);
    assert!(!ops.del_prefixes.after_scheduled_time(9));
}

#[test]
fn a_shard_that_was_not_flushed_is_not_merged() {
    let source = shard(1, b"a", b"m");
    let mut target = shard(2, b"m", b"z");
    assert!(check_merge(&source, &target, true).is_ok());
    target.initial_flushed = false;
    assert_eq!(check_merge(&source, &target, true).err(), Some(MergeDenied::TargetNotInitialFlushed));
    let mut source = shard(1, b"a", b"m");
    source.data.lock_txn_files.push(TxnFile { start_ts: 4, chunk_ids: vec![1] });
    let target = shard(2, b"m", b"z");
    assert_eq!(check_merge(&source, &target, true).err(), Some(MergeDenied::SourceHasTxnFileLocks));
    source.initial_flushed = false;
    assert_eq!(
        check_merge(&source, &target, true).err(),
        Some(MergeDenied::SourceNotInitialFlushed)
    );
    let mut busy = shard(3, b"a", b"m");
    busy.data.lock_txn_files.push(TxnFile { start_ts: 4, chunk_ids: vec![1] });
    assert_eq!(busy.prepare_merge(10, 0).err().unwrap(), MergeDenied::HasTxnFileLocks);
}

#[test]
fn a_shard_of_another_keyspace_has_to_be_empty() {
    let mut source = shard(1, b"x001", b"x002");
    source.estimated_size = 50;
    let target = shard(2, b"x002", b"x003");
    let res = check_merge(&source, &target, false).ok().unwrap();
    assert!(res.source_require_empty);
    assert!(!res.target_require_empty);
}

#[test]
fn parts_of_a_split_shard_have_their_tables() {
    let mut whole = shard(1, b"a", b"z");
    whole.data.l0_tbls = vec![l0(9, 90, b"b", b"c"), l0(8, 80, b"n", b"o")];
    whole.data.cfs[WRITE_CF]
        .set_level(LevelHandler::new(1, vec![sst(3, b"b", b"c"), sst(4, b"k", b"n")]));
    let split = pb::Split {
        new_shards: vec![
            pb::Properties { shard_id: 5, ..Default::default() },
            pb::Properties { shard_id: 1, ..Default::default() },
        ],
        keys: vec![b"m".to_vec()],
    };
    let spans = vec![TableIdSpan { min: 0, max: 0 }, TableIdSpan { min: 0, max: 0 }];
    let classes = vec![StorageClassSpec::default(), StorageClassSpec::default()];
    let parts = whole.split(&split, 20, 5, &spans, 0, &classes);
    assert_eq!(parts.len(), 2);
    assert_eq!((parts[0].id, parts[1].id), (5, 1));
    assert_eq!(parts[0].range.outer_end, &b"m"[..]);
    assert_eq!(parts[1].range.outer_start, &b"m"[..]);
    let ids = |s: &Shard| -> Vec<u64> { s.data.l0_tbls.iter().map(|t| t.id).collect() };
    assert_eq!(ids(&parts[0]), vec![9]);
    assert_eq!(ids(&parts[1]), vec![8]);
    let level = |s: &Shard| -> Vec<u64> {
        s.data.cfs[WRITE_CF].levels[0].tables.iter().map(|t| t.id).collect()
    };
    assert_eq!(level(&parts[0]), vec![3, 4]);
    assert_eq!(level(&parts[1]), vec![4]);
}

#[test]
fn a_merged_shard_has_the_tables_of_both() {
    let mut target = shard(2, b"m", b"z");
    target.data.l0_tbls.push(l0(7, 30, b"n", b"o"));
    let mut snapshot = pb::Snapshot::default();
    snapshot.outer_start = Bytes::from_static(b"a");
    snapshot.outer_end = Bytes::from_static(b"m");
    snapshot.properties = Some(pb::Properties { shard_id: 1, ..Default::default() });
    let source = MergeSource {
        ver: 3,
        sequence: 12,
        snapshot,
        l0_tbls: vec![l0(6, 40, b"b", b"c")],
        tables: vec![],
        blob_tbls: vec![],
        col_files: vec![],
        schema_file: None,
        unloaded_tbls: HashMap::new(),
        lock_txn_files: vec![],
    };
    let merged = target.commit_merge(&source, 15, &vec![], 0, StorageClassSpec::default());
    assert_eq!(merged.range.outer_start, &b"a"[..]);
    assert_eq!(merged.range.outer_end, &b"z"[..]);
    let ids: Vec<u64> = merged.data.l0_tbls.iter().map(|t| t.id).collect();
    assert_eq!(ids, vec![6, 7]);
}

#[test]
fn tables_that_were_left_out_are_loaded() {
    let mut data = ShardData::new_empty(ShardRange::new(b"a", b"z"), 0);
    let fm = FileMeta::new(-1, 0, FileType::Sst, b"b", b"c", 10, 0, None, TableIdSpan::default());
    data.unloaded_tbls.insert(9, fm.clone());
    assert_eq!(data.tables_to_load().len(), 1);
    let mut l0_tables = HashMap::new();
    l0_tables.insert(9, l0(9, 3, b"b", b"c"));
    let opened = OpenedFiles {
        l0_tables,
        ln_tables: HashMap::new(),
        col_files: HashMap::new(),
        blob_tables: HashMap::new(),
        vec_index_files: HashMap::new(),
        fts_l0_files: HashMap::new(),
        fts_l1_files: HashMap::new(),
        fts_l2_files: HashMap::new(),
    };
    let loaded = data.load_unloaded_tables(&vec![(9, fm)], &opened);
    assert!(loaded.unloaded_tbls.is_empty());
    assert_eq!(loaded.l0_tbls.len(), 1);
}

fn priority_options() -> PriorityOptions {
    PriorityOptions {
        ignore_columnar_table_load: false,
        build_columnar: false,
        vector: VectorIndexBuildOptions { rebuild_file_count: 3, delta_size: 10 },
    }
}

fn scores(highest: Option<(usize, usize)>) -> Scores {
    Scores { blob_gc: false, highest, col_l0: false, col_l1: false }
}

#[test]
fn what_is_most_urgent_is_compacted_first() {
    let mut s = shard(1, b"a", b"z");
    s.refresh_compaction_priority(0, &priority_options(), &vec![], &vec![], &vec![], &scores(None));
    assert!(s.compaction_priority.is_none());
    s.refresh_compaction_priority(
        0,
        &priority_options(),
        &vec![],
        &vec![],
        &vec![],
        &scores(Some((WRITE_CF, 1))),
    );
    assert!(matches!(s.compaction_priority, Some(CompactionPriority::L1Plus { cf: WRITE_CF, level: 1 })));
    s.data.l0_tbls.push(l0(9, 50, b"b", b"c"));
    s.pending_ops.truncate_ts = Some(40);
    s.refresh_compaction_priority(
        0,
        &priority_options(),
        &vec![],
        &vec![],
        &vec![],
        &scores(Some((WRITE_CF, 1))),
    );
    assert!(matches!(s.compaction_priority, Some(CompactionPriority::TruncateTs)));
}

#[test]
fn split_keys_are_taken_from_candidates() {
    let range = ShardRange::new(b"x001a", b"x001z");
    let keys: Vec<Vec<u8>> = vec![b"b".to_vec(), b"c".to_vec(), b"d".to_vec()];
    assert_eq!(suggest_split_key(&range, &keys), Some(b"x001d".to_vec()));
    assert_eq!(suggest_split_key(&range, &vec![]), None);
    let even = evenly_split_keys(&range, &keys, &vec![1, 1, 1]);
    assert_eq!(even, vec![b"x001c".to_vec(), b"x001d".to_vec()]);
}

#[test]
fn a_shard_is_split_at_keys_of_its_tables() {
    let mut s = shard(4, b"x001a", b"x001z");
    let opts = TableBuilderOptions { block_size: 1, max_table_size: 1 };
    let even = |len: usize, count: usize| -> Vec<usize> {
        assert_eq!((len, count), (3, 3));
        vec![1, 1, 1]
    };
    assert_eq!(s.get_suggest_split_key(&vec![], 1000, &opts), None);
    assert_eq!(s.get_evenly_split_keys(3, &vec![], 1000, &opts, even), None);
    let tables = vec![sst(1, b"b", b"c"), sst(2, b"d", b"e"), sst(3, b"f", b"g")];
    s.data.cfs[WRITE_CF].levels[0] = LevelHandler::new(1, tables);
    assert_eq!(s.get_suggest_split_key(&vec![], 1000, &opts), Some(b"x001f".to_vec()));
    assert_eq!(s.get_evenly_split_keys(1, &vec![], 1000, &opts, even), None);
    let keys = s.get_evenly_split_keys(3, &vec![], 1000, &opts, even);
    assert_eq!(keys, Some(vec![b"x001d".to_vec(), b"x001f".to_vec()]));
}

#[test]
fn a_shard_knows_its_state() {
    let mut s = shard(4, b"a", b"z");
    assert_eq!(s.id_ver(), IdVer::new(4, 2));
    assert_eq!(s.tag().engine_id, 1);
    assert!(!s.is_encrypted());
    s.set_active(true);
    assert!(s.is_active());
    assert!(s.data_all_persisted());
    assert_eq!(s.get_property(DEL_PREFIXES_KEY), None);
    let stats = LevelStatsLite { data_size: 10, max_ts: 5, ..Default::default() };
    let states = refreshed_states(&stats, 8);
    assert_eq!((states.estimated_size, states.sst_max_ts, states.max_ts), (10, 5, 8));
    s.gc_stats = GcStats { lv2plus_max_ts: 3, ..states.gc_stats };
    assert!(!s.check_need_gc_tombstones(2, false, 1000, true));
}

#[test]
fn deletions_begin_at_some_time_before_the_limit() {
    for _ in 0..50 {
        let at = gen_rand_schedule_del_range_time(1000, 10);
        assert!((1000..1010).contains(&at));
    }
}

#[test]
fn a_snapshot_of_a_shard_reads_its_range() {
    let mut s = shard(4, b"x001a", b"x001z");
    s.data.mem_tbls = vec![MemTable::new()];
    let mut snap = SnapAccessCore::new(&s, false);
    assert_eq!(snap.get_start_key(), b"x001a");
    assert_eq!(snap.get_end_key(), b"x001z");
    assert_eq!(snap.get_inner_start().deref(), b"a");
    assert_eq!(snap.get_inner_end().deref(), b"z");
    assert!(snap.key_is_in_range(b"x001b"));
    assert!(!snap.key_is_in_range(b"x001z"));
    assert_eq!(snap.get_read_ts(WRITE_CF, None), u64::MAX);
    snap.set_managed_ts(33);
    assert_eq!(snap.get_read_ts(WRITE_CF, None), 33);
    assert!(!snap.has_schema_file());
    assert!(!snap.has_unloaded_tables());
    assert!(snap.write_cf_level_n_is_empty());
    let (key, cs) = snap.marshal(&vec![], &HashMap::new(), &vec![], &vec![], false, true);
    assert!(key.starts_with("4:2:"));
    assert_eq!(cs.shard_id, 4);
}

#[test]
fn a_whole_store_has_no_keyspace() {
    let s = shard(4, b"", &GLOBAL_SHARD_END_KEY);
    assert_eq!(s.data.inner_key_off, 0);
    assert!(s.is_empty());
}

#[test]
fn statistics_are_taken_over() {
    let mut s = shard(4, b"a", b"z");
    s.data.l0_tbls.push(l0(9, 50, b"b", b"c"));
    let options = LimiterOptions {
        enable: true,
        soft_limit: 10,
        hard_limit: 40,
        max_speed_limit: 9,
        min_speed_limit: 1,
    };
    let mut limiter = RegionLimiter::new(options, options);
    let stats = LevelStatsLite {
        data_size: 10,
        blob_size: 5,
        entries: 7,
        kv_size: 6,
        ia_kv_size: 2,
        max_ts: 50,
        columnar_size: 3,
        columnar_kv_size: 4,
        ..Default::default()
    };
    s.refresh_estimated_size_and_entries(&stats, &mut limiter);
    assert_eq!(s.get_estimated_size(), 15);
    assert_eq!(s.get_estimated_entries(), 7);
    assert_eq!(s.get_estimated_kv_size(), 6);
    assert_eq!(s.get_estimated_ia_kv_size(), 2);
    assert_eq!(s.get_estimated_columnar_size(), 3);
    assert_eq!(s.get_estimated_columnar_kv_size(), 4);
    assert_eq!((s.get_sst_max_ts(), s.get_max_ts()), (50, 50));
    // Level 0 has 50 bytes, more than the hard limit.
    assert!(!limiter.is_unlimited());
}

#[test]
fn a_shard_hands_out_what_it_was_told() {
    let mut s = shard(4, b"a", b"z");
    s.set_base_version(9);
    s.update_write_sequence_on_recover(8);
    s.set_checked_schema_ver(7);
    s.set_outdated_schema_ver(6);
    assert_eq!((s.get_base_version(), s.get_write_sequence()), (9, 8));
    assert_eq!((s.get_checked_schema_ver(), s.get_outdated_schema_ver()), (7, 6));
    assert!(s.get_initial_flushed() && !s.is_compacting());
    assert!(s.storage_class_spec_equals(&StorageClassSpec::default()));
    assert!(s.get_del_prefixes().is_empty());
    assert!(!s.get_trim_over_bound());
    assert_eq!(s.get_truncate_ts(), None);
    assert!(s.get_encryption_key().is_none() && s.get_schema_file().is_none());
    let snap = s.new_snap_access(true);
    assert_eq!((snap.get_id(), snap.get_version()), (4, 2));
    assert_eq!((snap.get_write_sequence(), snap.get_meta_seq()), (8, 0));
    assert_eq!(snap.clone_start_key(), &b"a"[..]);
    assert_eq!(snap.get_keyspace_id(), 0);
    assert!(snap.get_lock_txn_files().is_empty());
}

#[test]
fn data_that_is_not_set_stays() {
    let mut data = ShardData::new_empty(ShardRange::new(b"a", b"z"), 0);
    data.update_counter = 4;
    data.l0_tbls.push(l0(9, 50, b"b", b"c"));
    let mut builder = ShardDataBuilder::new(data);
    builder.set_columnar_table_ids(vec![3]);
    builder.clear_schema(12);
    let built = builder.build();
    assert_eq!(built.update_counter, 5);
    assert_eq!(built.columnar_table_ids, vec![3]);
    assert_eq!((built.schema_version, built.restore_version), (0, 12));
    assert_eq!(built.l0_tbls.len(), 1);
}

#[test]
fn a_shard_is_made_of_a_snapshot() {
    let mut cs = pb::new_change_set(6, 2);
    cs.sequence = 11;
    let mut snap = pb::Snapshot::default();
    snap.outer_start = Bytes::from_static(b"a");
    snap.outer_end = Bytes::from_static(b"z");
    snap.base_version = 100;
    snap.data_sequence = 10;
    snap.properties = Some(pb::Properties { shard_id: 5, ..Default::default() });
    cs.snapshot = Some(snap);
    let tables = SnapshotTables {
        l0_tbls: vec![l0(9, 50, b"b", b"c")],
        cfs: new_cfs(),
        blob_tbls: vec![],
        lock_txn_files: vec![],
        unloaded_tbls: HashMap::new(),
        col_levels: ColumnarLevels::new(),
        vector_indexes: vec![],
        columnar_table_ids: vec![],
        schema_version: 0,
        restore_version: 0,
        schema_file: None,
    };
    let s = Shard::from_change_set(&cs, vec![], tables, 0, StorageClassSpec::default());
    assert_eq!((s.id, s.ver), (6, 2));
    assert_eq!((s.get_base_version(), s.get_meta_sequence(), s.get_write_sequence()), (100, 11, 10));
    assert_eq!(s.data.mem_tbls.len(), 1);
    assert_eq!(s.data.l0_tbls[0].id, 9);
    assert!(s.get_initial_flushed());
}

#[test]
fn blobs_in_use_are_those_that_tables_refer_to() {
    let mut s = shard(1, b"a", b"z");
    assert_eq!(s.data.get_blob_usage(), (0, 0));
    let mut t = l0(2, 7, b"b", b"c");
    t.blob_size = 30;
    s.data.l0_tbls = vec![t];
    let mut t = sst(3, b"b", b"c");
    t.blob_size = 12;
    s.data.cfs[WRITE_CF].levels[1].tables = vec![t];
    s.data.blob_tbls = vec![blob(4, 100), blob(5, 20)];
    assert_eq!(s.data.get_blob_usage(), (42, 120));
}

fn fts(id: u64) -> FtsFile {
    FtsFile { id, smallest: Bytes::from_static(b"b"), biggest: Bytes::from_static(b"c") }
}

#[test]
fn full_text_files_that_were_left_out_are_loaded() {
    let mut data = ShardData::new_empty(ShardRange::new(b"a", b"z"), 0);
    data.fts_l0_files.push(fts(1));
    let packed = |level: u32| {
        let span = TableIdSpan::default();
        FileMeta::new(0, level, FileType::FtsPackedFile, b"b", b"c", 0, 0, None, span)
    };
    let span = TableIdSpan::default();
    let dedicated = FileMeta::new(0, 2, FileType::FtsDedicatedFile, b"b", b"c", 0, 0, None, span);
    data.unloaded_tbls.insert(2, packed(0));
    data.unloaded_tbls.insert(3, packed(1));
    data.unloaded_tbls.insert(4, dedicated);
    let files = data.tables_to_load();
    assert_eq!(files.len(), 3);
    let opened = OpenedFiles {
        l0_tables: HashMap::new(),
        ln_tables: HashMap::new(),
        col_files: HashMap::new(),
        blob_tables: HashMap::new(),
        vec_index_files: HashMap::new(),
        fts_l0_files: HashMap::from([(2, fts(2))]),
        fts_l1_files: HashMap::from([(3, fts(3))]),
        fts_l2_files: HashMap::from([(4, fts(4))]),
    };
    let loaded = data.load_unloaded_tables(&files, &opened);
    let ids = |v: &Vec<FtsFile>| -> Vec<u64> { v.iter().map(|f| f.id).collect() };
    assert_eq!(ids(&loaded.fts_l0_files), vec![1, 2]);
    assert_eq!(ids(&loaded.fts_l1_files), vec![3]);
    assert_eq!(ids(&loaded.fts_l2_files), vec![4]);
    assert!(loaded.unloaded_tbls.is_empty());
    // A copy keeps them, and so does another version of the shard.
    let mut s = shard(1, b"a", b"z");
    s.data = loaded;
    assert_eq!(ids(&s.new_shard_version(3, 0).data.fts_l0_files), vec![1, 2]);
}

#[test]
fn another_version_keeps_the_highest_timestamp() {
    let mut s = shard(1, b"a", b"z");
    s.max_ts = 5;
    s.data.mem_tbls[0].max_ts = 9;
    assert_eq!(s.new_shard_version(3, 0).max_ts, 9);
    assert_eq!(s.prepare_merge(3, 0).ok().unwrap().max_ts, 9);
    assert_eq!(s.rollback_merge(3, 0).max_ts, 9);
    s.max_ts = 11;
    assert_eq!(s.new_shard_version(3, 0).max_ts, 11);
}

#[test]
fn memory_tables_are_switched_by_force_for_a_first_flush() {
    let mut s = shard(1, b"a", b"z");
    s.base_version = 100;
    let switch = s.prepare_update_shard_version(7, VersionChange::PrepareMerge);
    assert_eq!(switch.version.version, 107);
    assert_eq!(switch.sequence, 7);
    assert_eq!(s.write_sequence, 7);
    assert!(switch.force_switch);
    assert!(!s.prepare_merge(7, 0).ok().unwrap().initial_flushed);
    assert!(!s.prepare_update_shard_version(8, VersionChange::RollbackMerge).force_switch);
    assert!(s.rollback_merge(8, 0).initial_flushed);
    assert!(VersionChange::Split.forces_switch() && VersionChange::CommitMerge.forces_switch());
}

#[test]
fn a_block_that_ranges_share_counts_once() {
    let mut s = shard(4, b"a", b"z");
    // Four blocks of twenty bytes.
    s.data.cfs[WRITE_CF].levels[0] = LevelHandler::new(1, vec![sst(1, b"b", b"k")]);
    let keys = vec![b"b".to_vec(), b"d".to_vec(), b"f".to_vec(), b"h".to_vec()];
    let indexes = vec![vec![BlockIndex { keys }], vec![], vec![]];
    let size = |ranges: &[(&'static [u8], &'static [u8])]| -> usize {
        let ranges: Vec<(Bytes, Bytes)> = ranges
            .iter()
            .map(|(start, end)| (Bytes::from_static(start), Bytes::from_static(end)))
            .collect();
        estimated_range_blocks_size(&s.data.cfs[WRITE_CF], &indexes, &ranges)
    };
    let whole = size(&[(b"a", b"z")]);
    assert_eq!(whole, 80);
    assert_eq!(size(&[(b"l", b"z")]), 0);
    assert_eq!(size(&[(b"b", b"c")]), 20);
    assert_eq!(size(&[(b"b", b"c"), (b"c", b"cc")]), 20);
    assert_eq!(size(&[(b"b", b"c"), (b"c", b"e")]), 40);
    // Many small ranges never exceed the whole.
    let many: [(&'static [u8], &'static [u8]); 8] = [
        (b"b", b"bb"),
        (b"c", b"cc"),
        (b"d", b"dd"),
        (b"e", b"ee"),
        (b"f", b"ff"),
        (b"g", b"gg"),
        (b"h", b"hh"),
        (b"i", b"ii"),
    ];
    assert_eq!(size(&many), whole);
}

#[test]
fn a_snapshot_without_properties_is_taken_in() {
    let mut cs = pb::new_change_set(5, 6);
    cs.sequence = 7;
    cs.snapshot = Some(pb::Snapshot::default());
    let s = Shard::new_for_ingest(1, &cs, 0, StorageClassSpec::default());
    assert_eq!((s.id, s.ver, s.meta_seq), (0, 6, 7));
    assert!(s.get_encryption_key().is_none() && s.initial_flushed);
    assert_eq!(s.get_property(DEL_PREFIXES_KEY), None);
}

#[test]
fn small_tables_are_not_sampled() {
    let mut data = ShardData::new_empty(ShardRange::new(b"a", b"z"), 0);
    data.l0_tbls.push(l0(1, 1, b"b", b"c"));
    let opts = TableBuilderOptions { block_size: 0, max_table_size: 0 };
    assert!(data.get_candidate_inner_keys(&vec![], 100, &opts).is_empty());
    let opts = TableBuilderOptions { block_size: 10, max_table_size: 5 };
    assert!(data.get_candidate_inner_keys(&vec![], 1, &opts).is_empty());
}

#[test]
fn levels_of_parts_know_their_highest_timestamp() {
    let mut s = shard(1, b"a", b"z");
    s.data.cfs[WRITE_CF].levels[0] =
        LevelHandler::new(1, vec![sst(3, b"b", b"c"), sst(9, b"p", b"q")]);
    assert_eq!(s.data.cfs[WRITE_CF].levels[0].max_ts, 9);
    let part = |shard_id: u64| pb::Properties { shard_id, ..Default::default() };
    let split = pb::Split { new_shards: vec![part(1), part(2)], keys: vec![b"m".to_vec()] };
    let spans = vec![TableIdSpan::default(); 2];
    let parts = s.split(&split, 5, 1, &spans, 0, &vec![StorageClassSpec::default(); 2]);
    assert_eq!(parts[0].data.cfs[WRITE_CF].levels[0].max_ts, 3);
    assert_eq!(parts[1].data.cfs[WRITE_CF].levels[0].max_ts, 9);
    assert!(parts[1].encryption_key.is_none());
}
