//! Reads of a shard.
use std::collections::HashMap;

use bytes::Bytes;
use kvengine::bound::{DataBound, InnerKey};
use kvengine::del_prefixes::DeletePrefixes;
use kvengine::file_meta::SnapVersion;
use kvengine::fingerprint::key_hash;
use kvengine::file_meta::FileType;
use kvengine::ia::segment::{FileSegmentIdent, IaError};
use kvengine::pb::{new_change_set, TableIdSpan, VectorIndex};
use kvengine::range::ShardRange;
use kvengine::read::blocks::{
    choose_reader, tells_finished, BlockResult, CloudColumnarReaders, ConcurrentStep, NoReader,
    RangeQueue, RangeStep, ReadResult, ReaderChoice, ReaderFacts, SequentialStep, TableCtx, NO_TABLE,
};
use kvengine::read::change_set::{cache_key, to_change_set, SnapInfo};
use kvengine::read::columnar::{
    filter_columnar_table_ids_not_empty, get_ann_vec_col_id, AnnQueryColumn, ColumnInfo,
    DistanceProj, NoInnerSchema, ReaderPlan,
};
use kvengine::read::get::{get_read_ts, CfTables, RowTable};
use kvengine::read::iter::Iterator;
use kvengine::read::mem_data::{
    build_mem_data, construct_memtables, frame_mem_data, parse_mem_data, snapshot_memory,
    RemoteReadError,
};
use kvengine::read::mem_rows::collect_rows;
use kvengine::read::prefix::has_data_in_prefix;
use kvengine::read::remote_segments::get_ia_remote_segments;
use kvengine::read::rows::RowsIterator;
use kvengine::read::txn_file::{
    check_txn_file_constraint, conflict_lock_by_keys, conflict_lock_by_locks,
    get_txn_file_conflict_write, looks_up_keys, TxnKeys,
};
use kvengine::read::value::{Item, UserMeta, Value, ValueCacheValue};
use kvengine::shard::data::{ColumnarFile, L0Table, MemTable, ShardData};
use kvengine::table_key::{decode_table_id, encode_table_prefix_key};
use kvengine::{LOCK_CF, WRITE_CF};

fn value(version: u64, data: &str) -> Value {
    Value {
        version,
        meta: 0,
        deleted: false,
        user_meta: Some(UserMeta::new(version - 1, version)),
        blob: None,
        value: Bytes::copy_from_slice(data.as_bytes()),
    }
}

fn gone(version: u64) -> Value {
    Value { deleted: true, value: Bytes::new(), ..value(version, "") }
}

fn rows() -> (Vec<Vec<u8>>, Vec<Vec<Value>>) {
    (
        vec![b"a".to_vec(), b"b".to_vec(), b"c".to_vec(), b"d".to_vec()],
        vec![
            vec![value(30, "a30"), value(10, "a10")],
            vec![gone(20), value(10, "b10")],
            vec![value(15, "c15")],
            vec![value(50, "d50")],
        ],
    )
}

fn turned() -> (Vec<Vec<u8>>, Vec<Vec<Value>>) {
    let (mut keys, mut versions) = rows();
    keys.reverse();
    versions.reverse();
    (keys, versions)
}

fn iter(reversed: bool, all_versions: bool, read_ts: u64) -> Iterator<RowsIterator> {
    let (keys, versions) = if reversed { turned() } else { rows() };
    let range = ShardRange::new(b"", b"zz");
    Iterator::new(RowsIterator::new(keys, versions, reversed), range, 0, reversed, all_versions, read_ts)
}

fn shown(it: &mut Iterator<RowsIterator>) -> Vec<(Vec<u8>, u64)> {
    let mut res = vec![];
    while it.valid() {
        res.push((it.key().to_vec(), it.version()));
        it.next();
    }
    res
}

#[test]
fn an_iterator_shows_what_was_there_at_its_time() {
    let mut it = iter(false, false, 20);
    it.rewind();
    assert_eq!(shown(&mut it), vec![(b"a".to_vec(), 10), (b"c".to_vec(), 15)]);

    let mut it = iter(false, false, 15);
    it.seek(b"b");
    assert_eq!(shown(&mut it), vec![(b"b".to_vec(), 10), (b"c".to_vec(), 15)]);

    let mut it = iter(true, false, 60);
    it.rewind();
    assert!(it.is_reverse());
    assert_eq!(
        shown(&mut it),
        vec![(b"d".to_vec(), 50), (b"c".to_vec(), 15), (b"a".to_vec(), 30)]
    );

    let mut it = iter(false, true, 60);
    it.rewind();
    assert_eq!(
        shown(&mut it),
        vec![
            (b"a".to_vec(), 30),
            (b"a".to_vec(), 10),
            (b"c".to_vec(), 15),
            (b"d".to_vec(), 50)
        ]
    );
}

#[test]
fn an_iterator_goes_on_from_a_row_that_is_not_shown() {
    let mut it = iter(false, true, 60);
    assert!(it.set_range(Bytes::from_static(b"a"), Bytes::from_static(b"b")));
    assert_eq!(shown(&mut it), vec![(b"a".to_vec(), 30), (b"a".to_vec(), 10)]);
    // The walk is at a row behind the range, and no older version of it is shown.
    it.next();
    assert!(!it.valid());
    assert!(!it.set_range(Bytes::from_static(b"b"), Bytes::from_static(b"d")));
    assert_eq!(shown(&mut it), vec![(b"c".to_vec(), 15)]);
}

#[test]
fn an_iterator_stays_in_its_range() {
    let mut it = iter(false, false, 60);
    assert!(it.set_range(Bytes::from_static(b"b"), Bytes::from_static(b"d")));
    assert_eq!(shown(&mut it), vec![(b"c".to_vec(), 15)]);
    // The next range begins where this one ended.
    assert!(!it.set_range(Bytes::from_static(b"d"), Bytes::from_static(b"z")));
    assert!(it.valid_for_prefix(b"d"));
    assert!(!it.valid_for_prefix(b"e"));
    assert_eq!(shown(&mut it), vec![(b"d".to_vec(), 50)]);
}

fn table(rows: Vec<(&str, Vec<Value>)>) -> RowTable {
    let max_ts = rows.iter().flat_map(|r| r.1.iter().map(|v| v.version)).max().unwrap();
    let (keys, versions) = rows.into_iter().map(|(k, v)| (k.as_bytes().to_vec(), v)).unzip();
    RowTable { keys, versions, max_ts }
}

fn tables(cf: usize) -> CfTables<RowTable> {
    CfTables {
        cf,
        lock_txn_files: vec![],
        mem_tbls: vec![table(vec![("a", vec![value(30, "mem")])])],
        mem_versions: vec![SnapVersion { version: 9 }],
        l0_tbls: vec![Some(table(vec![("a", vec![value(20, "l0")]), ("b", vec![value(21, "b")])])), None],
        levels: vec![
            vec![table(vec![("a", vec![value(10, "l1")])]), table(vec![("c", vec![value(11, "c")])])],
            vec![table(vec![("d", vec![value(5, "d")])])],
        ],
        persisted_version: SnapVersion { version: 5 },
    }
}

#[test]
fn the_newest_version_that_may_be_seen_is_read() {
    let tables = tables(WRITE_CF);
    let item = tables.get(b"a", 40);
    assert_eq!(&item.val.unwrap().value[..], b"mem");
    assert_eq!((item.path.mem_table, item.path.l0, item.path.ln), (1, 0, 0));
    assert_eq!(&tables.get(b"a", 25).val.unwrap().value[..], b"l0");
    assert_eq!(&tables.get(b"a", 15).val.unwrap().value[..], b"l1");
    let none = tables.get(b"a", 9);
    assert!(none.val.is_none());
    assert_eq!((none.path.mem_table, none.path.l0, none.path.ln), (1, 1, 2));
    let items = tables.multi_get(&vec![b"b".to_vec(), b"d".to_vec(), b"x".to_vec()], 100);
    let found: Vec<bool> = items.iter().map(|i| i.val.is_some()).collect();
    assert_eq!(found, vec![true, true, false]);
    assert_eq!(tables.get_newer(b"a", 15).val.unwrap().version, 30);
    assert!(tables.get_newer(b"a", 31).val.is_none());
    assert!(tables.contains_in_older_table(InnerKey::from_inner_buf(b"d")));
    assert!(!tables.contains_in_older_table(InnerKey::from_inner_buf(b"x")));
}

#[test]
fn the_time_of_a_read_depends_on_the_column_family() {
    let snap = SnapVersion { version: 77 };
    assert_eq!(get_read_ts(WRITE_CF, Some(12), 0, snap), 12);
    assert_eq!(get_read_ts(WRITE_CF, None, 0, snap), u64::MAX);
    assert_eq!(get_read_ts(LOCK_CF, None, 0, snap), 77);
}

#[test]
fn a_kept_value_was_committed_at_its_version() {
    let cached = ValueCacheValue { start_ts: 3, version: 4, value: Bytes::from_static(b"v") };
    let item = Item::from_cached_value(&cached);
    let val = item.val.unwrap();
    assert_eq!(val.user_meta.unwrap(), UserMeta::new(3, 4));
    assert_eq!(&val.value[..], b"v");

    let mut item = Item { val: Some(Value { blob: Some(6), ..value(9, "") }), ..Item::new() };
    item.fill_in_blob(Bytes::from_static(b"blob"));
    let val = item.val.unwrap();
    assert!(val.blob.is_none());
    assert_eq!(&val.value[..], b"blob");
}

#[test]
fn rows_of_memory_tables_are_read_back() {
    let rows = vec![
        (b"x001k1".to_vec(), 1u64, 2u64, b"v1".to_vec()),
        (b"x001k2".to_vec(), 3, 4, b"".to_vec()),
    ];
    let data = build_mem_data(&rows, b"refs");
    let table = construct_memtables(&data).ok().unwrap().unwrap();
    assert_eq!(table.refs, Some(b"refs".to_vec()));
    let read: Vec<_> =
        table.entries.iter().map(|e| (e.key.clone(), e.user_meta, e.version, e.value.clone())).collect();
    assert_eq!(
        read,
        vec![
            (b"k1".to_vec(), UserMeta::new(1, 2), 2, b"v1".to_vec()),
            (b"k2".to_vec(), UserMeta::new(3, 4), 4, b"".to_vec())
        ]
    );
    // The first row begins behind the format, the size and the number of rows.
    assert_eq!(data[..4], [2, 0, 0, 0]);
    assert_eq!(data[12..20], [2, 0, 0, 0, 0, 0, 0, 0]);
    assert_eq!(data[20..34], [6, 0, 0, 0, 0, 0, 0, 0, b'x', b'0', b'0', b'1', b'k', b'1']);
}

#[test]
fn bytes_of_memory_tables_have_formats() {
    assert!(parse_mem_data(&[]).ok().unwrap().is_none());
    let framed = frame_mem_data(b"rows", b"rf");
    assert_eq!(framed, b"\x02\0\0\0\x04\0\0\0\0\0\0\0rows\x02\0\0\0rf");
    let parts = parse_mem_data(&framed).ok().unwrap().unwrap();
    assert_eq!((parts.rows, parts.refs), (b"rows".to_vec(), Some(b"rf".to_vec())));
    let parts = parse_mem_data(b"\x01\0\0\0rows").ok().unwrap().unwrap();
    assert_eq!((parts.rows, parts.refs), (b"rows".to_vec(), None));
    assert!(matches!(
        parse_mem_data(&[9, 0, 0, 0]).err(),
        Some(RemoteReadError::UnsupportedFormat(9))
    ));
    assert!(matches!(
        construct_memtables(&frame_mem_data(b"no", b"")).err(),
        Some(RemoteReadError::Rows(_))
    ));
    assert!(matches!(snapshot_memory(false, 1, true, 2).err(), Some(RemoteReadError::NoSnapshot)));
    assert_eq!(snapshot_memory(true, 10, true, 20).ok(), Some(30));
    assert_eq!(snapshot_memory(true, 10, false, 20).ok(), Some(10));
}

#[test]
fn rows_are_collected_from_the_oldest_version_on() {
    let mut it = iter(true, true, 60);
    let collected = collect_rows(&mut it, &vec![(Bytes::from_static(b"a"), Bytes::from_static(b"c"))]);
    let keys: Vec<(Vec<u8>, u64)> = collected.iter().map(|r| (r.0.clone(), r.2)).collect();
    assert_eq!(keys, vec![(b"a".to_vec(), 10), (b"a".to_vec(), 30)]);
}

#[test]
fn a_prefix_has_data_where_a_row_begins_with_it() {
    let none = DeletePrefixes::new_with_keyspace_id(0);
    assert!(has_data_in_prefix(&mut iter(false, false, 60), &none, b"c"));
    assert!(!has_data_in_prefix(&mut iter(false, false, 60), &none, b"cc"));
    let deleting = none.merge_prefix(b"c");
    assert!(!has_data_in_prefix(&mut iter(false, false, 60), &deleting, b"c"));
}

#[test]
fn answers_are_cached_by_shard_and_ranges() {
    let mut cs = new_change_set(3, 4);
    cs.sequence = 5;
    let ranges = vec![(Bytes::from_static(b"\x0a"), Bytes::from_static(b"\xff\x01"))];
    assert_eq!(cache_key(&cs, &ranges, true), "3:4:5:0aff01");
    assert_eq!(cache_key(&cs, &ranges, false), "");
}

fn l0(id: u64, smallest: &'static [u8], biggest: &'static [u8]) -> L0Table {
    L0Table {
        id,
        smallest: Bytes::from_static(smallest),
        biggest: Bytes::from_static(biggest),
        size: 10,
        entries: 1,
        kv_size: 8,
        max_ts: 4,
        version: SnapVersion { version: 2 },
        blob_size: 0,
        table_ids: TableIdSpan::default(),
    }
}

fn columnar(id: u64) -> ColumnarFile {
    ColumnarFile {
        id,
        smallest: Bytes::from_static(b"a"),
        biggest: Bytes::from_static(b"y"),
        size: 10,
        kv_size: 8,
        snap_version: None,
        table_ids: TableIdSpan::default(),
    }
}

#[test]
fn tables_of_the_asked_ranges_are_handed_out() {
    let mut data = ShardData::new_empty(ShardRange::new(b"a", b"z"), 0);
    data.l0_tbls.push(l0(2, b"b", b"c"));
    data.l0_tbls.push(l0(1, b"x", b"y"));
    let info = SnapInfo { id: 7, ver: 8, meta_seq: 9, encryption_key: None };
    let ranges = vec![(Bytes::from_static(b"c"), Bytes::from_static(b"d"))];
    data.col_levels.levels[1].push(columnar(11));
    data.col_levels.levels[2].push(columnar(12));
    let sizes = vec![None, None];
    // Columnar file 12 has data of the range, 11 has none.
    let holding = vec![vec![12]];
    let cs = to_change_set(&info, &data, &sizes, &HashMap::new(), &ranges, &holding, false);
    let snap = cs.snapshot.unwrap();
    let ids: Vec<u64> = snap.l0_creates.iter().map(|t| t.id).collect();
    assert_eq!(ids, vec![2]);
    let files: Vec<(u64, u32)> = snap.columnar_creates.iter().map(|t| (t.id, t.level)).collect();
    assert_eq!(files, vec![(12, 2)]);
    assert_eq!((cs.shard_id, cs.shard_ver, cs.sequence), (7, 8, 9));
    assert_eq!(snap.outer_start, &b"a"[..]);
}

fn txn() -> TxnKeys {
    TxnKeys { start_ts: 25, size: 100, keys: vec![b"a".to_vec(), b"c".to_vec()] }
}

fn lock_iter() -> RowsIterator {
    RowsIterator::new(
        vec![b"b".to_vec(), b"c".to_vec()],
        vec![vec![value(9, "lock b")], vec![value(9, "lock c")]],
        false,
    )
}

#[test]
fn conflicts_of_a_transaction_file_are_found() {
    let range = ShardRange::new(b"", b"z");
    assert!(txn().contains(b"c"));
    assert!(!txn().contains(b"b"));
    let (key, lock) = conflict_lock_by_locks(&txn(), &range, &mut lock_iter()).unwrap();
    assert_eq!(key, b"c");
    assert_eq!(&lock.value[..], b"lock c");

    let (keys, versions) = rows();
    let (key, meta) =
        get_txn_file_conflict_write(&txn(), &range, &mut RowsIterator::new(keys, versions, false))
            .unwrap();
    assert_eq!((key, meta.commit_ts), (b"a".to_vec(), 30));

    let locks = CfTables {
        cf: LOCK_CF,
        lock_txn_files: vec![],
        mem_tbls: vec![table(vec![("c", vec![value(9, "lock c")])])],
        mem_versions: vec![SnapVersion { version: 9 }],
        l0_tbls: vec![],
        levels: vec![],
        persisted_version: SnapVersion { version: 0 },
    };
    let (key, _) = conflict_lock_by_keys(&txn(), &range, &locks, &vec![], u64::MAX).unwrap();
    assert_eq!(key, b"c");
    assert!(looks_up_keys(1, u64::MAX));

    let held = tables(WRITE_CF);
    assert!(check_txn_file_constraint(&vec![b"x".to_vec()], &range, &held, 100).is_none());
    assert_eq!(
        check_txn_file_constraint(&vec![b"x".to_vec(), b"b".to_vec()], &range, &held, 100),
        Some(b"b".to_vec())
    );
}

#[test]
fn keys_of_tables_are_in_the_order_of_their_ids() {
    let ids = [i64::MIN, -1, 0, 1, 300, i64::MAX];
    for pair in ids.windows(2) {
        assert!(encode_table_prefix_key(pair[0]) < encode_table_prefix_key(pair[1]));
    }
    for id in ids {
        let mut key = encode_table_prefix_key(id);
        assert_eq!(decode_table_id(&key), Some(id));
        key.extend_from_slice(b"_r123");
        assert_eq!(decode_table_id(&key), Some(id));
    }
    assert_eq!(encode_table_prefix_key(1), b"t\x80\0\0\0\0\0\0\x01");
    assert_eq!(decode_table_id(b"t\x80\0"), None);
    assert_eq!(decode_table_id(b"m\x80\0\0\0\0\0\0\x01"), None);
}

#[test]
fn tables_with_data_are_found() {
    let key = encode_table_prefix_key(5);
    let mut it = RowsIterator::new(vec![key], vec![vec![value(3, "row")]], false);
    let found = filter_columnar_table_ids_not_empty(
        &mut it,
        &vec![5, 6, 7],
        &vec![vec![6]],
        &vec![5, 6, 7, 8],
    );
    assert!(found.contains(&5));
    assert!(found.contains(&6));
    assert!(!found.contains(&7));
}

#[test]
fn the_column_of_a_search_may_be_named_in_two_ways() {
    let old = AnnQueryColumn { deprecated_column_id: Some(1), column_id: Some(2) };
    let new = AnnQueryColumn { deprecated_column_id: None, column_id: Some(2) };
    let none = AnnQueryColumn { deprecated_column_id: None, column_id: None };
    assert_eq!(get_ann_vec_col_id(&old), Ok(1));
    assert_eq!(get_ann_vec_col_id(&new), Ok(2));
    assert_eq!(get_ann_vec_col_id(&none), Err(()));
}

#[test]
fn a_table_that_is_not_columnar_has_no_reader_of_columns() {
    let data = ShardData::new_empty(ShardRange::new(b"a", b"z"), 0);
    let columns = vec![ColumnInfo { column_id: 1, pk_handle: false }];
    assert!(data.new_schema_from_columns(true, 5, &columns, -1).is_none());
    let (tables, blobs) = data.get_overlap_async_tables(
        DataBound::new(InnerKey::from_inner_buf(b"a"), InnerKey::from_inner_buf(b"b"), true),
        &vec![],
    );
    assert!(tables.is_empty() && blobs.is_empty());
}

fn block(table_id: i64, read_count: usize) -> BlockResult {
    let mut columns = HashMap::new();
    columns.insert(7, b"seven".to_vec());
    BlockResult {
        table_id,
        read_count,
        handle_column_id: -1,
        version_column_id: -1024,
        pk_handle_ids: vec![3],
        handle_data: b"handles".to_vec(),
        version_data: b"versions".to_vec(),
        columns,
    }
}

fn table_ctx(table_id: i64) -> TableCtx {
    TableCtx { table_id, ranges: vec![] }
}

#[test]
fn columns_of_a_block_are_taken_once() {
    let mut b = block(1, 2);
    assert_eq!(b.take_column_data(7), b"seven");
    assert_eq!(b.take_column_data(7), b"");
    assert_eq!(b.take_column_data(3), b"handles");
    assert_eq!(b.take_column_data(-1), b"");
    assert_eq!(b.take_column_data(-1024), b"versions");
}

#[test]
fn tables_are_read_one_behind_the_other() {
    let tables = vec![table_ctx(1), table_ctx(2), table_ctx(3)];
    let mut readers = CloudColumnarReaders::new(tables, &vec![1, 3], 0);
    assert!(!readers.need_concurrency());
    assert!(matches!(readers.sequential_begin(0), SequentialStep::Return(0)));
    assert!(matches!(readers.sequential_begin(9), SequentialStep::Open(t) if t.table_id == 1));
    assert!(matches!(readers.sequential_after_read(4), SequentialStep::Return(4)));
    assert!(matches!(readers.sequential_begin(9), SequentialStep::Read));
    assert!(matches!(readers.sequential_after_read(0), SequentialStep::Open(t) if t.table_id == 3));
    assert!(matches!(readers.sequential_after_read(0), SequentialStep::Return(0)));
}

#[test]
fn tables_are_read_side_by_side() {
    let tables = vec![table_ctx(1), table_ctx(2), table_ctx(3)];
    let mut readers = CloudColumnarReaders::new(tables, &vec![1, 2, 3], 2);
    assert!(readers.need_concurrency());
    match readers.concurrent_begin(9) {
        ConcurrentStep::Start { tables, workers, .. } => {
            assert_eq!(tables.len(), 3);
            assert_eq!(workers, 2);
        }
        _ => panic!("workers are started"),
    }
    assert!(matches!(readers.concurrent_begin(9), ConcurrentStep::Receive));
    assert_eq!(readers.on_result(ReadResult::Block(block(2, 5))), Ok(5));
    assert_eq!(readers.ffi_physical_table_id(), 2);
    assert_eq!(readers.ffi_read_column(7), b"seven");
    assert_eq!(readers.ffi_read_handle(), b"handles");
    assert_eq!(readers.on_result(ReadResult::Error), Err(()));
    assert_eq!(readers.on_result(ReadResult::Finished), Ok(0));
    assert!(matches!(readers.concurrent_begin(9), ConcurrentStep::Return));
    assert_eq!(readers.ffi_physical_table_id(), NO_TABLE);
    assert!(tells_finished(true, 1));
    assert!(!tells_finished(true, 2));
}

#[test]
fn a_memory_table_bounds_its_keys() {
    let mut mem = MemTable::new();
    mem.keys = vec![Bytes::from_static(b"b"), Bytes::from_static(b"m")];
    let within = |a: &'static [u8], b: &'static [u8]| {
        DataBound::new(InnerKey::from_inner_buf(a), InnerKey::from_inner_buf(b), false)
    };
    assert!(mem.has_data_in_bound(within(b"a", b"c")));
    assert!(!mem.has_data_in_bound(within(b"c", b"m")));
    assert!(mem.has_over_bound_data(within(b"a", b"m")));
    assert!(!mem.has_over_bound_data(within(b"a", b"n")));
}

#[test]
fn keys_have_known_fingerprints() {
    assert_eq!(key_hash(b"hello"), farmhash::fingerprint64(b"hello"));
    assert_ne!(key_hash(b"hello"), key_hash(b"hellp"));
}

#[test]
fn a_search_without_an_index_reads_the_columns() {
    let facts = ReaderFacts {
        vector_search: true,
        vector_readable: true,
        column_known: true,
        schema_known: true,
        has_vector_reader: true,
        has_columnar_reader: true,
    };
    assert_eq!(choose_reader(facts), Ok(ReaderChoice::VectorIndex));
    let no_index = ReaderFacts { has_vector_reader: false, ..facts };
    assert_eq!(choose_reader(no_index), Ok(ReaderChoice::Columnar));
    let neither = ReaderFacts { has_columnar_reader: false, ..no_index };
    assert_eq!(choose_reader(neither), Err(NoReader::NoneAfterFallback));
    let bad = ReaderFacts { vector_readable: false, ..facts };
    assert_eq!(choose_reader(bad), Err(NoReader::BadVector));
    let unknown = ReaderFacts { column_known: false, ..facts };
    assert_eq!(choose_reader(unknown), Err(NoReader::NoVectorColumn));
    let no_schema = ReaderFacts { schema_known: false, ..facts };
    assert_eq!(choose_reader(no_schema), Err(NoReader::NoSchema));
    let plain = ReaderFacts { vector_search: false, has_columnar_reader: false, ..facts };
    assert_eq!(choose_reader(plain), Err(NoReader::NoColumnar));
}

#[test]
fn ranges_are_read_one_behind_the_other() {
    let range = |a: &'static [u8], b: &'static [u8]| (Bytes::from_static(a), Bytes::from_static(b));
    let mut queue = RangeQueue { ranges: vec![range(b"a", b"b"), range(b"c", b"d")] };
    assert_eq!(queue.update_range_handle(), Some(range(b"a", b"b")));
    assert!(matches!(queue.after_read(3), RangeStep::Return(3)));
    assert!(matches!(queue.after_read(0), RangeStep::Next(r) if r == range(b"c", b"d")));
    assert!(matches!(queue.after_read(0), RangeStep::Return(0)));
    assert_eq!(queue.update_range_handle(), None);
}

#[test]
fn an_iterator_shows_values() {
    let mut it = iter(false, false, 60);
    it.rewind();
    assert_eq!(it.val(), b"a30");
    assert_eq!(it.user_meta(), Some(UserMeta::new(29, 30)));
    assert_eq!(it.meta(), 0);
}

#[test]
fn versions_of_a_block_are_taken_once() {
    let mut readers = CloudColumnarReaders::new(vec![table_ctx(1), table_ctx(2)], &vec![1, 2], 2);
    readers.on_result(ReadResult::Block(block(1, 3))).unwrap();
    assert_eq!(readers.ffi_read_version(), b"versions");
    assert_eq!(readers.ffi_read_version(), b"");
    assert_eq!(readers.ffi_read_handle(), b"handles");
}

#[test]
fn remote_segments_of_all_tables_are_gathered() {
    let seg = |id: u64| FileSegmentIdent::new(id, 0, 10);
    let tables = vec![Ok((vec![seg(1)], 3)), Ok((vec![], 2))];
    let blobs = vec![Ok((vec![seg(5), seg(6)], 2))];
    let (segments, total) = get_ia_remote_segments(&tables, &blobs).ok().unwrap();
    assert_eq!(
        segments,
        vec![(seg(1), FileType::Sst), (seg(5), FileType::Blob), (seg(6), FileType::Blob)]
    );
    assert_eq!(total, 7);
    let bad = vec![Ok((vec![], 0)), Err(IaError::FooterNotMatch(9))];
    assert_eq!(get_ia_remote_segments(&bad, &blobs).err(), Some(IaError::FooterNotMatch(9)));
    assert_eq!(get_ia_remote_segments(&tables, &bad).err(), Some(IaError::FooterNotMatch(9)));
}

#[test]
fn a_search_in_text_reads_the_columns() {
    let mut data = ShardData::new_empty(ShardRange::new(b"a", b"z"), 0);
    data.mem_tbls = vec![MemTable::new()];
    let none = data.new_fts_columnar_mvcc_reader(true, 5, &vec![], -1, &vec![true], &vec![], &vec![]);
    assert!(none.is_none());
}

#[test]
fn a_vector_index_is_searched_where_there_is_one() {
    let mut data = ShardData::new_empty(ShardRange::new(b"a", b"z"), 0);
    let none: Vec<u64> = vec![];
    let plan = |data: &ShardData,
                table_id: i64,
                searchable: bool,
                proj: DistanceProj|
     -> Result<Option<ReaderPlan>, NoInnerSchema> {
        let (mems, l0s) = (vec![true], vec![]);
        data.new_vector_index_reader(
            true, table_id, 2, 3, searchable, &mems, &l0s, &none, &none, proj,
        )
    };
    let reads = |data: &ShardData, table_id: i64, searchable: bool| -> bool {
        plan(data, table_id, searchable, DistanceProj::Disabled).ok().unwrap().is_some()
    };
    assert!(!reads(&data, 1, true));
    data.vector_indexes.push(VectorIndex {
        table_id: 1,
        index_id: 2,
        col_id: 3,
        snap_version: 0,
        files: vec![],
    });
    assert!(reads(&data, 1, true));
    assert!(!reads(&data, 1, false));
    assert!(!reads(&data, 4, true));
    // What the index does not cover is read with the vector where distances are projected.
    let vector = ColumnInfo { column_id: 3, pk_handle: false };
    let asked = plan(&data, 1, true, DistanceProj::Disabled).ok().unwrap().unwrap();
    assert!(asked.vector_index && asked.projected.is_none());
    let enabled = DistanceProj::Enabled(vec![vector]);
    let projected = plan(&data, 1, true, enabled).ok().unwrap().unwrap();
    assert!(projected.vector_index && projected.mems == vec![0]);
    assert_eq!(projected.projected, Some(vec![vector]));
    let failed = plan(&data, 1, true, DistanceProj::NoInnerSchema);
    assert_eq!(failed.err(), Some(NoInnerSchema));
    assert!(plan(&data, 4, true, DistanceProj::NoInnerSchema).ok().unwrap().is_none());
}

#[test]
fn a_change_set_for_readers_holds_a_snapshot_alone() {
    let data = ShardData::new_empty(ShardRange::new(b"a", b"z"), 0);
    let info = SnapInfo { id: 5, ver: 6, meta_seq: 7, encryption_key: None };
    let cs = to_change_set(&info, &data, &vec![], &HashMap::new(), &vec![], &vec![], false);
    assert!(!cs.clear_columnar && cs.flush.is_none() && cs.parent.is_none());
    let snap = cs.snapshot.unwrap();
    assert!(snap.fts_l0_files.is_empty() && snap.fts_l2_files.is_empty());
}
