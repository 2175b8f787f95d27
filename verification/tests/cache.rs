//! The cache of remote file segments and its settings.
use std::io::{Read, Seek, SeekFrom, Write};
use std::str::FromStr;

use bytes::Bytes;
use kvengine::file_meta::{FileMeta, FileType};
use kvengine::ia::auto_file::{
    report_transitions, set_last_transit_storage_class_instant_to_now,
    should_try_storage_class_transition, try_transit_storage_class, IaAutoFile, TransitResult,
};
use kvengine::ia::cache::{FileSegmentData, FileSegmentPosition, SegmentMap};
use kvengine::ia::config::{IaCapacity, IaConfig, IaManagerOptionsBuilder};
use kvengine::ia::fifo::{S3Fifo, StoreAction};
use kvengine::ia::file::{IaFile, ReadFrom, SstBlocks, SstFooter};
use kvengine::ia::filename::{file_name, local_file_path, tmp_file_path};
use kvengine::ia::gc::{
    handle_meta_file, handle_segment, handle_temp, segment_gc_is_due, Error, IaGcConfig,
    MetaFileFate, NS_PER_SEC,
};
use kvengine::ia::manager::{
    should_persist_manifest, IaManagerOptions, Manifest, QueueOptions, ReadAt, TableMetas,
};
use kvengine::ia::memory_store::{LocalMemoryStore, ReadOutOfRange};
use kvengine::ia::multi_read::join_parts;
use kvengine::ia::queue::{Queue, QueueItemPos};
use kvengine::ia::reader::{IaManagerCore, SegmentRead, SegmentReadStep, SegmentStep};
use kvengine::ia::segment::{FileSegmentIdent, IaError, SegmentOffsetsBuilder};
use kvengine::pb::{StorageClass, StorageClassSpec, TableIdSpan};

fn default_options() -> IaManagerOptions {
    IaManagerOptionsBuilder::default().build(1000, 4)
}

#[test]
fn test_manifest() {
    assert_eq!(Manifest::unmarshal(&[]), Err(IaError::ManifestTooSmall));

    let manifest = Manifest { main_queue_cap: 1024 };
    let mut f = tempfile::tempfile().unwrap();
    f.write_all(&manifest.marshal()).expect("persist manifest");

    f.seek(SeekFrom::Start(0)).unwrap();
    let mut data = vec![];
    f.read_to_end(&mut data).unwrap();
    let manifest1 = Manifest::unmarshal(&data).unwrap();
    assert_eq!(manifest1, manifest);
}

#[test]
fn manifest_has_a_version_and_a_capacity() {
    let manifest = Manifest { main_queue_cap: -2 };
    let mut data = manifest.marshal();
    assert_eq!(data, [1, 254, 255, 255, 255, 255, 255, 255, 255]);
    data.push(7);
    assert_eq!(Manifest::unmarshal(&data), Ok(manifest));
    data[0] = 9;
    assert_eq!(Manifest::unmarshal(&data), Err(IaError::ManifestVersionNotMatch(9)));
}

#[test]
fn test_ia_capacity() {
    let total: u64 = 1000;
    let mut options = default_options();

    let ia_cap = IaCapacity::MemoryCap(total * 20 / 100);
    ia_cap.build_options(&mut options);
    println!("options for MemoryCap(20%): {:?}", options);
    assert_eq!(options.small_queue.cap, 20);
    assert_eq!(options.main_queue.cap, 180);
    assert!(options.small_queue.paths.is_empty());
    assert!(options.main_queue.paths.is_empty());

    let temp_dir = tempfile::TempDir::new().unwrap();
    let dir = temp_dir.path().to_str().unwrap().to_string();
    let ia_cap = IaCapacity::MemoryAndDiskCap {
        mem_cap: total * 10 / 100,
        local_dirs: vec![dir.clone()],
        disk_cap: total * 10 / 100,
    };
    ia_cap.build_options(&mut options);
    println!("options for MemoryAndDiskCap(10%+10%): {:?}", options);
    assert_eq!(options.small_queue.cap, 100);
    assert_eq!(options.main_queue.cap, 100);
    assert_eq!(options.main_queue.paths, vec![dir]);
}

#[test]
fn settings_have_defaults() {
    let options = default_options();
    assert_eq!(options.segment_size, 1 << 20);
    assert_eq!(options.freq_update_interval_secs, 60);
    assert_eq!(options.dfs_concurrency, 512);
    assert_eq!(options.dfs_keyspace_concurrency, 192);
    assert_eq!(options.fd_cache_capacity, 102400);
    assert_eq!(options.table_meta_mtime_interval_secs, 3600);
    assert_eq!(options.sync_read_concurrency, 4);
    assert_eq!(options.sync_read_timeout_secs, 3);
    assert_eq!(options.total_capacity(), 1000);

    let built = IaManagerOptionsBuilder::default()
        .capacity(IaCapacity::Manual {
            small_queue: QueueOptions { paths: vec![], cap: 5 },
            main_queue: QueueOptions { paths: vec!["/d".to_string()], cap: 50 },
        })
        .segment_size(2)
        .freq_update_interval(3)
        .dfs_concurrency(7, 6)
        .fd_cache_capacity(8)
        .table_meta_mtime_interval(9)
        .dynamic_capacity(true)
        .sync_read(true, 10, 11)
        .build(1000, 4);
    assert_eq!((built.small_queue.cap, built.main_queue.cap), (5, 50));
    assert_eq!(built.segment_size, 2);
    assert_eq!(built.freq_update_interval_secs, 3);
    assert_eq!((built.dfs_concurrency, built.dfs_keyspace_concurrency), (7, 6));
    assert_eq!(built.fd_cache_capacity, 8);
    assert_eq!(built.table_meta_mtime_interval_secs, 9);
    assert!(built.dynamic_capacity && built.disable_sync_read);
    assert_eq!((built.sync_read_concurrency, built.sync_read_timeout_secs), (10, 11));
    assert_eq!(built.acquire_sync_read(0), Err(IaError::SyncReadDisabled));

    let options = IaConfig::default().to_manager_options(vec!["/d".to_string()], 10, 20, 4);
    assert_eq!((options.small_queue.cap, options.main_queue.cap), (10, 20));
}

#[test]
fn blocking_reads_are_limited() {
    let options = IaManagerOptionsBuilder::default().sync_read(false, 2, 3).build(1000, 4);
    assert_eq!(options.acquire_sync_read(1), Ok(3));
    assert_eq!(options.acquire_sync_read(2), Err(IaError::SyncReadLimitExceeded));
}

#[test]
fn capacity_of_the_main_queue_is_kept_between_limits() {
    let mut options = IaManagerOptionsBuilder::default()
        .capacity(IaCapacity::MemoryAndDiskCap { mem_cap: 100, local_dirs: vec![], disk_cap: 1000 })
        .segment_size(1)
        .dynamic_capacity(true)
        .build(0, 4);
    assert_eq!(options.small_queue_min_cap(), 64);
    assert_eq!(options.main_queue_min_cap(), 256);
    assert_eq!(options.adjusted_main_cap(10), Some(256));
    assert_eq!(options.adjusted_main_cap(500), Some(500));
    assert_eq!(options.adjusted_main_cap(2000), Some(1000));
    assert_eq!(options.adjusted_small_cap(10), 64);
    assert_eq!(options.adjusted_small_cap(80), 80);
    options.dynamic_capacity = false;
    assert_eq!(options.adjusted_main_cap(500), None);
}

#[test]
fn test_tmp_file_path() {
    for p in ["/var/lib/tikv/db/100.sst", "/var/lib/tikv/db/100"] {
        let path_str = tmp_file_path(p, 42);

        let segs = path_str.split('.').collect::<Vec<_>>();
        assert_eq!(segs.len(), 3);
        assert_eq!(segs[0], "/var/lib/tikv/db/100");
        assert_eq!(u64::from_str(segs[1]).unwrap(), 42);
        assert_eq!(segs[2], "tmp");
    }
}

#[test]
fn files_are_named_by_their_ids() {
    assert_eq!(file_name(0xab, FileType::Sst), "00000000000000ab.sst");
    assert_eq!(local_file_path("/db", 0xab, FileType::Columnar), "/db/00000000000000ab.col");
}

fn seg(file_id: u64, start_off: u64, end_off: u64) -> FileSegmentIdent {
    FileSegmentIdent::new(file_id, start_off, end_off)
}

#[test]
fn segments_are_made_of_blocks() {
    let mut builder = SegmentOffsetsBuilder::new(100);
    for off in [10, 60, 99, 100, 150, 220] {
        builder.push_block_off(off);
    }
    builder.push_boundary(240);
    assert_eq!(builder.finish(), vec![0, 100, 220, 240]);
}

fn sst_file() -> IaFile {
    let footer =
        SstFooter { is_match: true, meta_offset: 300, data_len: 200, old_data_len: 100 };
    let blocks = SstBlocks { blocks: vec![0, 50, 100, 150], old_blocks: vec![200, 250] };
    IaFile::open_for_sst(7, 40, footer, false, None, &blocks, 100).ok().unwrap()
}

#[test]
fn reads_of_a_remote_table_go_to_its_segments_or_its_meta() {
    let file = sst_file();
    assert_eq!(file.read_from(0, 10).ok(), Some(ReadFrom::Segment(seg(7, 0, 100))));
    assert_eq!(file.read_from(120, 80).ok(), Some(ReadFrom::Segment(seg(7, 100, 200))));
    assert_eq!(file.read_from(210, 10).ok(), Some(ReadFrom::Segment(seg(7, 200, 300))));
    assert_eq!(file.read_from(310, 10).ok(), Some(ReadFrom::TableMeta(10)));
    assert_eq!(
        file.read_from(90, 20).err(),
        Some(IaError::ReadMoreThanOneSegment { file_id: 7, start_off: 90, end_off: 110 })
    );
    assert!(matches!(file.read_from(339, 2).err(), Some(IaError::ReadTableMetaOutOfRange(_))));
    assert_eq!(file.get_segment_ident(199).ok(), Some(seg(7, 100, 200)));
    assert_eq!(file.storage_class(), StorageClass::Ia);

    let mut cached = SegmentMap::new();
    cached.set_segment_data(seg(7, 0, 100), FileSegmentData::InStore);
    let (missing, _) = file.get_remote_segments(&vec![(10, 120), (110, 230)], &cached).ok().unwrap();
    assert_eq!(missing, vec![seg(7, 100, 200), seg(7, 200, 300)]);
}

#[test]
fn a_footer_of_another_kind_is_refused() {
    let footer = SstFooter { is_match: false, meta_offset: 30, data_len: 20, old_data_len: 0 };
    let blocks = SstBlocks { blocks: vec![0], old_blocks: vec![] };
    let opened = IaFile::open_for_sst(7, 4, footer, false, None, &blocks, 100);
    assert_eq!(opened.err(), Some(IaError::FooterNotMatch(7)));
    let opened = IaFile::open_for_sst(7, 4, footer, true, None, &blocks, 100);
    assert!(opened.is_ok());
    let opened = IaFile::open_for_blob(7, 4, false, 30, &vec![0], 100);
    assert_eq!(opened.err(), Some(IaError::FooterNotMatch(7)));
}

#[test]
fn not_all_kinds_of_files_have_a_remote_form() {
    let sst = FileMeta::new(0, 3, FileType::Sst, b"a", b"b", 0, 0, None, TableIdSpan::default());
    assert_eq!(IaFile::check_file_type(&sst).ok(), Some(FileType::Sst));
    let schema = FileMeta::from_schema_meta();
    assert_eq!(
        IaFile::check_file_type(&schema).err(),
        Some(IaError::FileTypeNotSupported(schema.file_type))
    );
}

#[test]
fn cached_segments_move_to_the_store() {
    let mut map = SegmentMap::new();
    let a = seg(1, 0, 4);
    assert!(!map.is_segment_cached(a));
    assert_eq!(map.segment_cached_position(a), FileSegmentPosition::NotExist);
    map.set_segment_data(a, FileSegmentData::InMem(Bytes::from_static(b"data")));
    assert_eq!(map.segment_cached_position(a), FileSegmentPosition::InMem);
    assert!(map.set_segment_data_from_mem_to_store(a).is_ok());
    assert_eq!(map.segment_cached_position(a), FileSegmentPosition::InStore);
    assert!(map.set_segment_data_from_mem_to_store(a).is_err());
    assert!(matches!(map.remove(a), Some(FileSegmentData::InStore)));
    assert!(map.get_segment(a).is_none());
}

#[test]
fn least_used_segments_leave_first() {
    let mut queue = Queue::new(100);
    queue.push(seg(1, 0, 10));
    queue.push(seg(2, 0, 10));
    queue.access(seg(1, 0, 10), 1000, 0);
    assert_eq!(queue.get(seg(1, 0, 10)).unwrap().freq(), 1);
    let gone = queue.pop_with_zero_freq().unwrap();
    assert_eq!(gone.0, seg(2, 0, 10));
    let gone = queue.pop().unwrap();
    assert_eq!(gone.0, seg(1, 0, 10));
    assert!(queue.pop().is_none());
}

#[test]
fn segments_pass_through_the_queues() {
    let mut segments = SegmentMap::new();
    let mut fifo = S3Fifo::new(20, 40, 10, 0);
    for id in 1..=4u64 {
        let ident = seg(id, 0, 10);
        segments.set_segment_data(ident, FileSegmentData::InMem(Bytes::from(vec![id as u8; 10])));
        let (pos, _) = fifo.read(ident, false, id * 100, &mut segments).ok().unwrap();
        assert_eq!(pos, QueueItemPos::Small);
    }
    // The small queue holds two segments; the others are remembered.
    assert!(!segments.is_segment_cached(seg(1, 0, 10)));
    assert!(segments.is_segment_cached(seg(4, 0, 10)));
    assert!(fifo.is_in_ghost(seg(1, 0, 10)));

    let again = seg(1, 0, 10);
    segments.set_segment_data(again, FileSegmentData::InMem(Bytes::from(vec![1u8; 10])));
    let (pos, actions) = fifo.read(again, false, 900, &mut segments).ok().unwrap();
    assert_eq!(pos, QueueItemPos::Main);
    assert!(actions.iter().any(|a| matches!(a, StoreAction::Save(i, _) if *i == again)));

    let large = seg(9, 0, 1000);
    segments.set_segment_data(large, FileSegmentData::InMem(Bytes::from(vec![0u8; 1000])));
    assert_eq!(
        fifo.read(large, false, 950, &mut segments).err(),
        Some(IaError::TooLargeItem(large))
    );
}

#[test]
fn a_read_gets_its_part_of_the_segment() {
    let mut core = IaManagerCore { segments: SegmentMap::new(), fifo: S3Fifo::new(100, 100, 10, 0) };
    let ident = seg(3, 100, 110);
    let mut read_at = ReadAt::new(4, 102, true);
    let step = core.read_segment_from_cache(ident, &mut read_at).ok().unwrap();
    assert!(matches!(step, SegmentStep::FromRemote));
    let data = Bytes::from_static(b"0123456789");
    assert!(core.on_loaded(ident, data, 1, &mut read_at).is_ok());
    let (bytes, handle) = read_at.finish();
    assert_eq!(bytes, b"2345");
    assert_eq!(handle.unwrap().file_id, 3);

    let mut read_at = ReadAt::new(3, 107, false);
    let step = core.read_segment_from_cache(ident, &mut read_at).ok().unwrap();
    assert!(matches!(step, SegmentStep::Done));
    assert!(core.on_cache_hit(ident, 2).is_ok());
    assert_eq!(read_at.finish().0, b"789");

    let mut read_at = ReadAt::new(4, 107, false);
    assert_eq!(
        core.read_segment_from_cache(ident, &mut read_at).err(),
        Some(IaError::InvalidRange(ident))
    );
}

#[test]
fn data_in_memory_is_found_by_its_key() {
    let mut store = LocalMemoryStore::new();
    assert!(matches!(store.read("k", 0, 1), Ok(None)));
    store.save("k", Bytes::from_static(b"hello"));
    assert_eq!(store.read("k", 1, 3).ok().unwrap().unwrap(), &b"el"[..]);
    assert_eq!(store.read_at("k", 2, 3).ok().unwrap().unwrap(), &b"lo"[..]);
    assert_eq!(store.read("k", 1, 6).err(), Some(ReadOutOfRange { end_off: 6, data_len: 5 }));
    assert_eq!(store.handle("k").unwrap(), &b"hello"[..]);
    assert_eq!(store.remove("k"), Some(()));
    assert_eq!(store.remove("k"), None);
}

#[test]
fn table_meta_is_touched_once_in_an_interval() {
    let mut metas = TableMetas::new();
    assert!(!metas.access_table_meta(1, 1000, 60, 990));
    assert!(!metas.access_table_meta(1, 1049, 60, 0));
    assert!(metas.access_table_meta(1, 1050, 60, 0));
    assert!(!metas.access_table_meta(1, 1100, 60, 0));
    assert!(!metas.access_table_meta(2, 1100, 60, 0));
    assert!(metas.access_table_meta(2, 1100, 60, 0));
    metas.remove_table_meta(1);
    assert!(!metas.access_table_meta(1, 9000, 60, 9000));
}

#[test]
fn local_files_are_collected_when_they_are_old() {
    let config = IaGcConfig::default();
    let day = 86400 * NS_PER_SEC;
    let name = "000000000000002a.sst.meta";
    assert_eq!(handle_meta_file(&config, name, day, |_| false), MetaFileFate::Keep);
    assert_eq!(handle_meta_file(&config, name, day + 1, |_| false), MetaFileFate::Remove(42));
    assert_eq!(handle_meta_file(&config, name, day + 1, |id| id == 42), MetaFileFate::Keep);
    assert_eq!(handle_meta_file(&config, "x.meta", day + 1, |_| false), MetaFileFate::InvalidName);
    assert!(handle_segment(Some(seg(1, 0, 5)), false, |_| false));
    assert!(!handle_segment(Some(seg(1, 0, 5)), true, |_| false));
    assert!(!handle_segment(Some(seg(1, 0, 5)), false, |_| true));
    assert!(!handle_segment(None, false, |_| false));
    assert!(handle_temp(&config, 60 * NS_PER_SEC));
    assert!(!handle_temp(&config, 60 * NS_PER_SEC - 1));
    assert!(segment_gc_is_due(&config, 1, day));
    assert!(!segment_gc_is_due(&config, 0, day));
    assert_eq!(Error::IaGc("no dir".to_string()).message(), "IA GC error no dir");
    assert_eq!(Error::Io("gone".to_string()).message(), "IA GC IO error gone");
}

#[test]
fn old_files_become_remote() {
    let spec = StorageClassSpec { specified: true, must_be_ia: false, ia_after_ms: Some(1000) };
    let mut file = IaAutoFile { has_local_file: true, spec };
    assert_eq!(file.should_transit(999), None);
    assert_eq!(file.try_transit(999), TransitResult::NoChange);
    assert_eq!(file.try_transit(1000), TransitResult::TransitedToIa);
    assert_eq!(file.storage_class(), StorageClass::Ia);
    assert_eq!(file.try_transit(5000), TransitResult::NoChange);

    let mut files = vec![
        Some(IaAutoFile { has_local_file: true, spec }),
        None,
        Some(IaAutoFile { has_local_file: true, spec }),
    ];
    assert_eq!(try_transit_storage_class(spec, &mut files, &vec![2000, 0, 2000]), 1);
    assert!(!files[0].unwrap().has_local_file);
    // A file that does not follow the specification ends the look.
    assert!(files[2].unwrap().has_local_file);
    assert_eq!(report_transitions(0), None);
    assert_eq!(report_transitions(2), Some(2));
    assert!(should_try_storage_class_transition(spec, 11, 10));
    assert!(!should_try_storage_class_transition(spec, 10, 10));
    assert!(!should_try_storage_class_transition(StorageClassSpec::default(), 11, 10));
}

#[test]
fn a_read_over_several_segments_is_made_of_parts() {
    let file = sst_file();
    let parts = file.multi_read_parts(50, 200).ok().unwrap();
    assert_eq!(parts, vec![(50, 100), (100, 200), (200, 250)]);
    assert_eq!(file.multi_read_parts(10, 20).ok().unwrap(), vec![(10, 30)]);
    assert!(file.multi_read_parts(10, 0).ok().unwrap().is_empty());
    assert_eq!(
        file.multi_read_parts(250, 100).err(),
        Some(IaError::ReadOutOfRange { file_id: 7, start_off: 300, end_off: 301 })
    );
    let data: Vec<u8> = (0..=255).chain(0..44).collect();
    let read: Vec<Bytes> =
        parts.iter().map(|p| Bytes::copy_from_slice(&data[p.0 as usize..p.1 as usize])).collect();
    assert_eq!(join_parts(&read), &data[50..250]);
}

#[test]
fn segments_of_the_main_store_are_taken_over() {
    let mut core = IaManagerCore { segments: SegmentMap::new(), fifo: S3Fifo::new(20, 25, 10, 0) };
    let found = vec![seg(1, 0, 10), seg(2, 0, 10), seg(3, 0, 10)];
    let mut actions = vec![];
    assert_eq!(core.init_segments(&found, 1, &mut actions), Ok(()));
    // The main queue holds two of them.
    assert!(!core.contains_segment(seg(1, 0, 10)));
    assert!(core.contains_segment(seg(2, 0, 10)));
    assert!(core.contains_segment(seg(3, 0, 10)));
    assert_eq!(actions.len(), 1);
    assert!(matches!(actions[0], StoreAction::Remove(i) if i == seg(1, 0, 10)));
    // One that is too large is cached and not queued; those before it are taken over, and
    // one makes room.
    let large = vec![seg(5, 0, 10), seg(4, 0, 21), seg(6, 0, 10)];
    let too_large = Err(IaError::TooLargeItem(seg(4, 0, 21)));
    assert_eq!(core.init_segments(&large, 1, &mut actions), too_large);
    assert_eq!(actions.len(), 2);
    assert!(matches!(actions[1], StoreAction::Remove(i) if i == seg(2, 0, 10)));
    assert!(core.contains_segment(seg(5, 0, 10)) && core.contains_segment(seg(4, 0, 21)));
    assert!(core.fifo.get_item(seg(5, 0, 10)).is_some());
    assert!(core.fifo.get_item(seg(4, 0, 21)).is_none());
    assert!(!core.contains_segment(seg(6, 0, 10)));
}

#[test]
fn the_cache_is_looked_at_again_before_a_segment_is_loaded() {
    let mut read = SegmentRead::new();
    assert_eq!(read.step, SegmentReadStep::Look);
    read.on_look(false);
    assert_eq!(read.step, SegmentReadStep::Lock);
    read.on_locked();
    assert_eq!(read.step, SegmentReadStep::Look);
    read.on_look(false);
    assert_eq!(read.step, SegmentReadStep::Load);
    read.on_load();
    assert_eq!(read.step, SegmentReadStep::Finished { cache_hit: false });
    let mut read = SegmentRead::new();
    read.on_look(true);
    assert_eq!(read.step, SegmentReadStep::Finished { cache_hit: true });
}

#[test]
fn the_manifest_is_written_once_in_a_minute() {
    assert!(should_persist_manifest(1, 60));
    assert!(!should_persist_manifest(1, 59));
    assert!(!should_persist_manifest(0, 60));
    let options = IaManagerOptionsBuilder::default().disable_sync_read().build(10, 1);
    assert_eq!(options.acquire_sync_read(0), Err(IaError::SyncReadDisabled));
}

#[test]
fn there_is_room_as_long_as_sizes_can_be_counted() {
    let mut segments = SegmentMap::new();
    let mut fifo = S3Fifo::new(0, 1 << 20, 1 << 10, 0);
    let all = seg(1, 0, i64::MAX as u64);
    assert!(fifo.has_room(all));
    assert!(!fifo.has_room(seg(1, 0, i64::MAX as u64 + 1)));
    let small = seg(2, 0, 10);
    segments.set_segment_data(small, FileSegmentData::InMem(Bytes::from(vec![0; 10])));
    assert!(fifo.read(small, true, 1, &mut segments).is_ok());
    assert!(!fifo.has_room(all));
    assert!(fifo.has_room(seg(1, 10, i64::MAX as u64)));
}

#[test]
fn the_last_look_does_not_go_back() {
    assert_eq!(set_last_transit_storage_class_instant_to_now(10, 12), 12);
    assert_eq!(set_last_transit_storage_class_instant_to_now(12, 10), 12);
}

#[test]
fn segments_leave_in_the_order_in_which_they_came() {
    let mut queue = Queue::new(100);
    for id in 1..=3u64 {
        queue.push(seg(id, 0, id * 10));
    }
    assert_eq!(queue.size(), 60);
    let mut left = 60;
    for id in 1..=3u64 {
        let ident = seg(id, 0, id * 10);
        assert_eq!(queue.pop().map(|e| e.0), Some(ident));
        assert!(queue.get(ident).is_none());
        left -= id as i64 * 10;
        assert_eq!(queue.size(), left);
    }
    assert!(queue.pop().is_none());
    assert_eq!(queue.size(), 0);
}

#[test]
fn a_segment_that_is_too_large_leaves_the_queues_alone() {
    let mut core = IaManagerCore { segments: SegmentMap::new(), fifo: S3Fifo::new(20, 40, 10, 0) };
    let small = seg(1, 0, 10);
    let mut read_at = ReadAt::new(0, 0, false);
    assert!(core.on_loaded(small, Bytes::from(vec![0; 10]), 1, &mut read_at).is_ok());
    let large = seg(2, 0, 30);
    let mut read_at = ReadAt::new(0, 0, false);
    let res = core.on_loaded(large, Bytes::from(vec![0; 30]), 1, &mut read_at);
    assert!(matches!(res, Err(IaError::TooLargeItem(i)) if i == large));
    assert!(core.fifo.get_item(small).is_some());
    assert!(core.fifo.get_item(large).is_none());
}
