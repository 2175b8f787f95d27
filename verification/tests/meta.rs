//! What a shard consists of, and how changes are applied to it.
use std::collections::{HashMap, HashSet};
use std::iter::FromIterator;

use bytes::Bytes;
use kvengine::bound::{BoundedDataSet, DataBound, InnerKey};
use kvengine::file_meta::{FileMeta, FileType};
use kvengine::keyspace::GLOBAL_SHARD_END_KEY;
use kvengine::meta::ShardMeta;
use kvengine::pb::{self, new_change_set, TableIdSpan};
use kvengine::properties::DEL_PREFIXES_KEY;
use kvengine::range::ShardRange;
use kvengine::WRITE_CF;

#[test]
fn test_fts_update_remove_tracked_indexes() {
    let mut meta = ShardMeta::default();
    meta.fts_indexes.insert((10, 1));
    meta.fts_indexes.insert((10, 2));
    meta.fts_pending_l0_ids = vec![100, 200];

    let mut update = pb::FtsUpdate::default();
    update.remove_tracked_indexes.push(pb::TableIndexId { table_id: 10, index_id: 1 });

    meta.apply_fts_update(&update);

    assert!(!meta.fts_indexes.contains(&(10, 1)));
    assert!(meta.fts_indexes.contains(&(10, 2)));
    assert_eq!(
        meta.fts_pending_l0_ids,
        vec![100, 200],
        "pending ids should be kept if there are remaining tracked indexes"
    );

    let mut update = pb::FtsUpdate::default();
    update.remove_tracked_indexes.push(pb::TableIndexId { table_id: 10, index_id: 2 });

    meta.apply_fts_update(&update);
    assert!(meta.fts_indexes.is_empty());
    assert!(
        meta.fts_pending_l0_ids.is_empty(),
        "pending ids should be cleared when no indexes are tracked"
    );
}

#[test]
fn test_ingest_level() {
    for level in 0..=3u32 {
        let mut cs = new_change_set(1, 1);
        let mut snap = pb::Snapshot::default();
        snap.outer_end = Bytes::copy_from_slice(&GLOBAL_SHARD_END_KEY);
        snap.max_ts = 100;
        let mut id = 0;
        let mut make_table = |level: u32, smallest: &str, biggest: &str| {
            id += 1;
            let mut tbl = pb::TableCreate::default();
            tbl.id = id;
            tbl.level = level;
            tbl.smallest = Bytes::copy_from_slice(smallest.as_bytes());
            tbl.biggest = Bytes::copy_from_slice(biggest.as_bytes());
            tbl
        };
        snap.table_creates.push(make_table(level, "1000", "2000"));
        cs.snapshot = Some(snap);
        let meta = ShardMeta::new(1, &cs);
        assert_eq!(meta.max_ts, 100);
        let assert_get_ingest_level = |smallest: &str, biggest: &str, level| {
            assert_eq!(
                meta.get_ingest_level(DataBound::new(
                    InnerKey::from_inner_buf(smallest.as_bytes()),
                    InnerKey::from_inner_buf(biggest.as_bytes()),
                    true
                )),
                level
            );
        };
        let overlap_level = level.saturating_sub(1);
        assert_get_ingest_level("0000", "0999", level);
        assert_get_ingest_level("1000", "1500", overlap_level);
        assert_get_ingest_level("1000", "2000", overlap_level);
        assert_get_ingest_level("1500", "2000", overlap_level);
        assert_get_ingest_level("1500", "2999", overlap_level);
        assert_get_ingest_level("2000", "2999", overlap_level);
        assert_get_ingest_level("2500", "2999", level);
    }
}

#[test]
fn test_delete_file_with_level() {
    let files = vec![
        // L0:
        (1, FileMeta::new(0, 0, FileType::Sst, b"", b"", 0, 0, None, TableIdSpan::default())),
        // L1:
        (101, FileMeta::new(0, 1, FileType::Sst, b"", b"", 0, 0, None, TableIdSpan::default())),
        (102, FileMeta::new(0, 1, FileType::Sst, b"", b"", 0, 0, None, TableIdSpan::default())),
        // L2:
        (201, FileMeta::new(0, 2, FileType::Sst, b"", b"", 0, 0, None, TableIdSpan::default())),
        (202, FileMeta::new(0, 2, FileType::Sst, b"", b"", 0, 0, None, TableIdSpan::default())),
    ];
    let make_meta = || ShardMeta {
        files: HashMap::from_iter(files.clone().into_iter()),
        ..Default::default()
    };

    // comp_level, top_deletes, bottom_deletes, is_duplicated, result_files
    let cases: Vec<(u32, &'static [u64], &'static [u64], bool, &'static [u64])> = vec![
        // delete top
        (0, &[1], &[], false, &[101, 102, 201, 202]),
        (1, &[101], &[], false, &[1, 102, 201, 202]),
        // delete bottom
        (0, &[], &[102], false, &[1, 101, 201, 202]),
        (1, &[], &[201, 202], false, &[1, 101, 102]),
        // delete both top & bottom
        (1, &[102], &[202], false, &[1, 101, 201]),
        // top deleted
        (0, &[888], &[], true, &[1, 101, 102, 201, 202]),
        (1, &[888], &[], true, &[1, 101, 102, 201, 202]),
        // bottom deleted
        (1, &[], &[888], true, &[1, 101, 102, 201, 202]),
        // bottom level not match
        (1, &[], &[101], true, &[1, 101, 102, 201, 202]),
        // top level not match
        (1, &[201], &[202], true, &[1, 101, 102, 201]),
    ];

    for (idx, (comp_level, top_deletes, bottom_deletes, is_duplicated, result_files)) in
        cases.into_iter().enumerate()
    {
        // Test compaction.
        {
            let mut meta = make_meta();
            let mut comp = pb::Compaction::default();
            comp.level = comp_level;
            comp.top_deletes.extend_from_slice(top_deletes);
            comp.bottom_deletes.extend_from_slice(bottom_deletes);
            comp.table_creates.push(pb::TableCreate {
                id: 100000,
                level: comp_level + 1,
                ..Default::default()
            });

            assert_eq!(meta.is_duplicated_compaction(&mut comp), is_duplicated, "case {}", idx);

            meta.apply_compaction(&comp);
            assert_eq!(result_files.len() + 1, meta.files.len());
            for id in result_files {
                assert!(meta.files.contains_key(id), "case {} file id {}", idx, id);
            }
        }

        // Test other table changes.
        {
            let mut table_change = pb::TableChange::default();
            for &id in top_deletes {
                let deleted = pb::TableDelete { id, level: comp_level, ..Default::default() };
                table_change.table_deletes.push(deleted);
            }
            for &id in bottom_deletes {
                let deleted = pb::TableDelete { id, level: comp_level + 1, ..Default::default() };
                table_change.table_deletes.push(deleted);
            }

            let changesets = vec![
                {
                    // destroy_range
                    let mut cs = pb::ChangeSet::default();
                    cs.destroy_range = Some(table_change.clone());
                    cs.property_key = DEL_PREFIXES_KEY.to_string();
                    cs
                },
                {
                    // truncate_ts
                    let mut cs = pb::ChangeSet::default();
                    cs.truncate_ts = Some(table_change.clone());
                    cs
                },
                {
                    // trim_over_bound
                    let mut cs = pb::ChangeSet::default();
                    cs.trim_over_bound = Some(table_change.clone());
                    cs
                },
            ];

            let mut seq = 5; // RAFT_INIT_LOG_INDEX
            for mut cs in changesets {
                cs.sequence = seq;
                seq += 1;

                let mut meta = make_meta();
                assert_eq!(
                    meta.is_duplicated_change_set(&mut cs, pb::StorageClassSpec::default()),
                    is_duplicated,
                    "case {} cs {:?}",
                    idx,
                    cs,
                );

                meta.apply_change_set(&cs);
                assert_eq!(result_files.len(), meta.files.len());
                for id in result_files {
                    assert!(
                        meta.files.contains_key(id),
                        "case {} cs {:?} file id {}",
                        idx,
                        cs,
                        id
                    );
                }
            }
        }
    }
}

#[test]
fn test_table_overlap() {
    let (range, inner_key_off) =
        (ShardRange::new(&[b'x', 2, 3, 4, 10], &[b'x', 2, 3, 4, 20]), 4);
    let meta = ShardMeta {
        range,
        inner_key_off,
        ..Default::default()
    };

    let cases: Vec<(u8, u8, bool, bool)> = vec![
        // smallest, biggest, overlap, contains
        (3, 5, false, false),
        (3, 10, true, false),
        (3, 15, true, false),
        (3, 20, true, false),
        (3, 25, true, false),
        (10, 15, true, true),
        (10, 20, true, false),
        (10, 25, true, false),
        (13, 15, true, true),
        (13, 20, true, false),
        (13, 25, true, false),
        (20, 25, false, false),
        (23, 25, false, false),
    ];

    for (idx, (smallest, biggest, overlap, contains_bound)) in cases.into_iter().enumerate() {
        let smallest_buf = [smallest];
        let smallest = InnerKey::from_inner_buf(&smallest_buf);
        let biggest_buf = [biggest];
        let biggest = InnerKey::from_inner_buf(&biggest_buf);
        let table_bound = DataBound::new(smallest, biggest, true);
        let shard_bound = meta.range.data_bound();
        assert_eq!(shard_bound.overlap_bound(table_bound), overlap, "case {}", idx);
        assert_eq!(shard_bound.contains_bound(table_bound), contains_bound, "case {}", idx);
    }
}

fn make_ingest_files(l0: &[u64], ln: &[u64], blob: &[u64]) -> pb::IngestFiles {
    let mut ingest_files = pb::IngestFiles::default();
    for &id in l0 {
        ingest_files.l0_creates.push(pb::L0Create { id, ..Default::default() });
    }
    for &id in ln {
        ingest_files.table_creates.push(pb::TableCreate { id, ..Default::default() });
    }
    for &id in blob {
        ingest_files.blob_creates.push(pb::BlobCreate { id, ..Default::default() });
    }
    ingest_files
}

#[test]
fn test_dedup_ingest_files() {
    {
        let meta = ShardMeta::default();
        let mut ingest_files = make_ingest_files(&[1], &[2], &[3]);
        let expected = ingest_files.clone();

        let is_empty = meta.dedup_ingest_files_of_load_data(&mut ingest_files);
        assert!(!is_empty);
        assert_eq!(ingest_files, expected);
    }

    {
        let files = (1..=7).map(|id| (id, FileMeta::default()));
        let meta = ShardMeta {
            files: HashMap::from_iter(files),
            ..Default::default()
        };
        let mut ingest_files = make_ingest_files(&[1, 2], &[3, 4], &[5, 6, 7]);
        let is_empty = meta.dedup_ingest_files_of_load_data(&mut ingest_files);
        assert!(is_empty);
        assert_eq!(ingest_files, pb::IngestFiles::default());
    }

    {
        let files = (1..=7).map(|id| (id, FileMeta::default()));
        let meta = ShardMeta {
            files: HashMap::from_iter(files),
            ..Default::default()
        };
        let mut ingest_files = make_ingest_files(&[1, 2, 10, 11], &[3, 4, 12], &[5, 6, 7, 13, 14]);
        let is_empty = meta.dedup_ingest_files_of_load_data(&mut ingest_files);
        assert!(!is_empty);
        let expected = make_ingest_files(&[10, 11], &[12], &[13, 14]);
        assert_eq!(ingest_files, expected);
    }
}

#[test]
fn test_check_overlap_for_load_data() {
    let make_smallest_biggest = |t: &(usize, usize)| {
        (format!("{:04}", t.0).into_bytes(), format!("{:04}", t.1).into_bytes())
    };
    let make_ingest_files = |ln: &[(usize, usize)]| -> pb::IngestFiles {
        let mut ingest_files = pb::IngestFiles::default();
        for (id, t) in ln.iter().enumerate() {
            let (smallest, biggest) = make_smallest_biggest(t);
            ingest_files.table_creates.push(pb::TableCreate {
                id: id as u64,
                smallest: smallest.into(),
                biggest: biggest.into(),
                ..Default::default()
            });
        }
        ingest_files
    };
    let make_meta = |files: &[(usize, usize)]| -> ShardMeta {
        let mut meta = ShardMeta::default();
        for (id, t) in files.iter().enumerate() {
            let (smallest, biggest) = make_smallest_biggest(t);
            meta.files.insert(
                id as u64,
                FileMeta::new(
                    WRITE_CF as i32,
                    3,
                    FileType::Sst,
                    &smallest,
                    &biggest,
                    0,
                    0,
                    None,
                    TableIdSpan::default(),
                ),
            );
        }
        meta
    };

    let ingest_files = make_ingest_files(&[(1, 1), (2, 5), (10, 20)]);
    let cases = vec![
        (
            vec![(0, 0)], // existed files
            None,         // expected
        ),
        (vec![(0, 0), (1, 2)], Some((1, 0))),
        (vec![(0, 0), (6, 6), (8, 11)], Some((2, 2))),
        (vec![(0, 0), (6, 6), (7, 7), (30, 40)], None),
    ];

    for (idx, (existed_files, expected)) in cases.into_iter().enumerate() {
        let meta = make_meta(&existed_files);
        let overlap = meta.check_overlap_for_load_data(&ingest_files);
        assert_eq!(overlap, expected, "case {}", idx);
    }
}

fn make_vector_index_file(id: u64, smallest: &[u8], biggest: &[u8]) -> pb::VectorIndexFile {
    pb::VectorIndexFile {
        id,
        smallest: Bytes::copy_from_slice(smallest),
        biggest: Bytes::copy_from_slice(biggest),
        meta_offset: 100,
        ..Default::default()
    }
}

fn make_vector_index(
    table_id: i64,
    index_id: i64,
    col_id: i64,
    files: Vec<pb::VectorIndexFile>,
) -> pb::VectorIndex {
    pb::VectorIndex {
        table_id,
        index_id,
        col_id,
        files,
        ..Default::default()
    }
}

#[test]
fn test_merge_vector_index() {
    // Merge files into existing vector index
    {
        let mut meta = ShardMeta::default();

        // Add initial vector index with files [1, 2]
        let initial_files = vec![
            make_vector_index_file(1, b"key1", b"key2"),
            make_vector_index_file(2, b"key3", b"key4"),
        ];
        let initial_vec_idx = make_vector_index(100, 1, 10, initial_files);
        meta.vector_indexes.push(initial_vec_idx);

        // Merge new files [2, 3] (file 2 already exists, file 3 is new)
        let new_files = vec![
            make_vector_index_file(2, b"key3", b"key4"), // duplicate
            make_vector_index_file(3, b"key5", b"key6"), // new
        ];
        let new_vec_idx = make_vector_index(100, 1, 10, new_files);

        meta.merge_vector_index(&new_vec_idx);

        // Verify: should have 1 vector index with files [1, 2, 3]
        assert_eq!(meta.vector_indexes.len(), 1);
        let merged_idx = &meta.vector_indexes[0];
        assert_eq!(merged_idx.table_id, 100);
        assert_eq!(merged_idx.index_id, 1);
        assert_eq!(merged_idx.col_id, 10);
        assert_eq!(merged_idx.files.len(), 3);

        let file_ids: HashSet<u64> = merged_idx.files.iter().map(|f| f.id).collect();
        assert!(file_ids.contains(&1));
        assert!(file_ids.contains(&2));
        assert!(file_ids.contains(&3));
    }

    // Add new vector index (no matching existing index)
    {
        let mut meta = ShardMeta::default();

        // Add initial vector index
        let initial_files = vec![make_vector_index_file(1, b"key1", b"key2")];
        let initial_vec_idx = make_vector_index(100, 1, 10, initial_files);
        meta.vector_indexes.push(initial_vec_idx);

        // Add new vector index with different table_id
        let new_files = vec![make_vector_index_file(4, b"key7", b"key8")];
        let new_vec_idx = make_vector_index(200, 1, 10, new_files);

        meta.merge_vector_index(&new_vec_idx);

        // Verify: should have 2 vector indexes
        assert_eq!(meta.vector_indexes.len(), 2);

        // Find the new index
        let new_idx = meta.vector_indexes.iter().find(|idx| idx.table_id == 200).unwrap();
        assert_eq!(new_idx.index_id, 1);
        assert_eq!(new_idx.col_id, 10);
        assert_eq!(new_idx.files.len(), 1);
        assert_eq!(new_idx.files[0].id, 4);
    }

    // Add new vector index with different index_id
    {
        let mut meta = ShardMeta::default();

        // Add initial vector index
        let initial_files = vec![make_vector_index_file(1, b"key1", b"key2")];
        let initial_vec_idx = make_vector_index(100, 1, 10, initial_files);
        meta.vector_indexes.push(initial_vec_idx);

        // Add new vector index with different index_id
        let new_files = vec![make_vector_index_file(5, b"key9", b"key10")];
        let new_vec_idx = make_vector_index(100, 2, 10, new_files);

        meta.merge_vector_index(&new_vec_idx);

        // Verify: should have 2 vector indexes
        assert_eq!(meta.vector_indexes.len(), 2);

        // Find the new index
        let new_idx = meta.vector_indexes.iter().find(|idx| idx.index_id == 2).unwrap();
        assert_eq!(new_idx.table_id, 100);
        assert_eq!(new_idx.col_id, 10);
        assert_eq!(new_idx.files.len(), 1);
        assert_eq!(new_idx.files[0].id, 5);
    }

    // Add new vector index with different col_id
    {
        let mut meta = ShardMeta::default();

        // Add initial vector index
        let initial_files = vec![make_vector_index_file(1, b"key1", b"key2")];
        let initial_vec_idx = make_vector_index(100, 1, 10, initial_files);
        meta.vector_indexes.push(initial_vec_idx);

        // Add new vector index with different col_id
        let new_files = vec![make_vector_index_file(6, b"key11", b"key12")];
        let new_vec_idx = make_vector_index(100, 1, 20, new_files);

        meta.merge_vector_index(&new_vec_idx);

        // Verify: should have 2 vector indexes
        assert_eq!(meta.vector_indexes.len(), 2);

        // Find the new index
        let new_idx = meta.vector_indexes.iter().find(|idx| idx.col_id == 20).unwrap();
        assert_eq!(new_idx.table_id, 100);
        assert_eq!(new_idx.index_id, 1);
        assert_eq!(new_idx.files.len(), 1);
        assert_eq!(new_idx.files[0].id, 6);
    }
}

fn whole_meta() -> ShardMeta {
    let mut cs = new_change_set(1, 3);
    cs.sequence = 9;
    let mut snap = pb::Snapshot::default();
    snap.outer_start = Bytes::from_static(b"a");
    snap.outer_end = Bytes::from_static(b"z");
    snap.properties = Some(pb::Properties { shard_id: 1, ..Default::default() });
    snap.base_version = 100;
    snap.data_sequence = 9;
    snap.max_ts = 50;
    for (id, smallest, biggest) in [(11, "b", "c"), (12, "n", "o"), (13, "k", "p")] {
        snap.table_creates.push(pb::TableCreate {
            id,
            level: 2,
            smallest: Bytes::copy_from_slice(smallest.as_bytes()),
            biggest: Bytes::copy_from_slice(biggest.as_bytes()),
            ..Default::default()
        });
    }
    cs.snapshot = Some(snap);
    ShardMeta::new(7, &cs)
}

fn file_ids(meta: &ShardMeta) -> Vec<u64> {
    let mut ids = meta.all_file_keys();
    ids.sort();
    ids
}

#[test]
fn a_shard_is_restored_from_its_change_set() {
    let meta = whole_meta();
    let restored = ShardMeta::new(7, &meta.to_change_set());
    assert_eq!(file_ids(&restored), vec![11, 12, 13]);
    assert_eq!(restored.range.outer_start, meta.range.outer_start);
    assert_eq!(restored.range.outer_end, meta.range.outer_end);
    assert_eq!((restored.ver, restored.seq, restored.max_ts), (3, 9, 50));
    assert_eq!(restored.data_version(), 109);
}

#[test]
fn parts_of_a_split_have_the_files_of_their_keys() {
    let meta = whole_meta();
    let split = pb::Split {
        new_shards: vec![
            pb::Properties { shard_id: 5, ..Default::default() },
            pb::Properties { shard_id: 1, ..Default::default() },
        ],
        keys: vec![b"m".to_vec()],
    };
    let spans = vec![pb::TableIdSpan { min: 0, max: 0 }, pb::TableIdSpan { min: 0, max: 0 }];
    let parts = meta.apply_split(&split, 10, 5, &spans);
    assert_eq!(parts.len(), 2);
    assert_eq!((parts[0].id, parts[1].id), (5, 1));
    assert_eq!((&parts[0].range.outer_start[..], &parts[0].range.outer_end[..]), (&b"a"[..], &b"m"[..]));
    assert_eq!((&parts[1].range.outer_start[..], &parts[1].range.outer_end[..]), (&b"m"[..], &b"z"[..]));
    assert_eq!(file_ids(&parts[0]), vec![11, 13]);
    assert_eq!(file_ids(&parts[1]), vec![12, 13]);
}

#[test]
fn a_merged_shard_has_the_range_and_files_of_both() {
    let mut target = whole_meta();
    let mut cs = new_change_set(2, 4);
    cs.sequence = 20;
    let mut snap = pb::Snapshot::default();
    snap.outer_start = Bytes::from_static(b"z");
    snap.outer_end = Bytes::from_static(b"zz");
    snap.properties = Some(pb::Properties { shard_id: 2, ..Default::default() });
    snap.base_version = 300;
    snap.max_ts = 60;
    snap.table_creates.push(pb::TableCreate { id: 21, level: 3, ..Default::default() });
    cs.snapshot = Some(snap);
    let source = ShardMeta::new(7, &cs);
    target.commit_merge(&source, 30, vec![]);
    assert_eq!(&target.range.outer_start[..], b"a");
    assert_eq!(&target.range.outer_end[..], b"zz");
    assert_eq!(file_ids(&target), vec![11, 12, 13, 21]);
    assert_eq!(target.max_ts, 60);
}

#[test]
fn an_applied_change_is_seen() {
    let mut meta = whole_meta();
    let mut cs = new_change_set(1, 3);
    cs.sequence = 12;
    let mut flush = pb::Flush::default();
    flush.l0_create = Some(pb::L0Create { id: 31, ..Default::default() });
    flush.version = 111;
    flush.max_ts = 70;
    cs.flush = Some(flush);
    assert!(!meta.is_duplicated_change_set(&mut cs, pb::StorageClassSpec::default()));
    meta.apply_change_set(&cs);
    assert_eq!(file_ids(&meta), vec![11, 12, 13, 31]);
    assert_eq!(meta.max_ts, 70);
    assert!(meta.is_duplicated_change_set(&mut cs, pb::StorageClassSpec::default()));
}

#[test]
fn files_are_handed_out_as_they_came() {
    let table = pb::TableCreate {
        id: 5,
        level: 2,
        cf: 0,
        smallest: Bytes::from_static(b"a"),
        biggest: Bytes::from_static(b"b"),
        meta_offset: 77,
        table_ids: TableIdSpan { min: 3, max: 9 },
    };
    assert_eq!(FileMeta::from_table(&table).to_table_create(5), table);
    let l0 = pb::L0Create {
        id: 6,
        smallest: Bytes::from_static(b"a"),
        biggest: Bytes::from_static(b"b"),
        size: 12,
        table_ids: TableIdSpan { min: 4, max: 5 },
    };
    assert_eq!(FileMeta::from_l0_table(&l0).to_l0_create(6), l0);
}

#[test]
fn properties_are_set_and_removed() {
    let mut meta = ShardMeta::default();
    meta.set_property("k", b"v");
    assert_eq!(meta.get_property("k").unwrap(), &b"v"[..]);
    meta.set_property("k", b"w");
    assert_eq!(meta.del_property("k").unwrap(), &b"w"[..]);
    assert!(meta.get_property("k").is_none());
}

#[test]
fn the_newest_schema_is_kept() {
    let mut meta = ShardMeta::default();
    meta.schema.update_from_schema_meta(&pb::SchemaMeta { file_id: 4, version: 2, ..Default::default() });
    let mut older = ShardMeta::default();
    older.schema.update_from_schema_meta(&pb::SchemaMeta { file_id: 3, version: 1, ..Default::default() });
    meta.schema.merge_from(&older.schema);
    assert_eq!((meta.schema.file_id(), meta.schema.file_ver()), (4, 2));
    older.schema.merge_from(&meta.schema);
    assert_eq!(older.schema.file_id(), 4);
}

#[test]
fn locks_of_transaction_files_come_and_go() {
    let mut meta = ShardMeta::default();
    assert!(!meta.has_txn_file_locks());
    meta.txn_file_locks.insert(3, 10, Bytes::from_static(b"p"));
    assert!(meta.has_txn_file_locks());
    assert!(meta.txn_file_locks.remove(4, 10));
    assert!(!meta.txn_file_locks.remove(4, 10));
    assert!(meta.txn_file_locks().is_empty());
}

#[test]
fn pending_files_of_other_tables_are_dropped() {
    let span = |id: i64| TableIdSpan { min: id, max: id };
    let mut meta = ShardMeta::default();
    for (id, table) in [(1, 10), (2, 20)] {
        meta.add_file(id, FileMeta::new(-1, 0, FileType::Sst, b"a", b"b", 1, 0, None, span(table)));
    }
    meta.fts_pending_l0_ids = vec![1, 2, 3];
    meta.retain_fts(&vec![20]);
    assert_eq!(meta.fts_pending_l0_ids, vec![2]);
}

#[test]
fn an_old_change_set_is_seen_and_stays_as_it_is() {
    let mut meta = ShardMeta::default();
    meta.seq = 9;
    let mut cs = new_change_set(1, 1);
    cs.sequence = 9;
    cs.compaction = Some(pb::Compaction { level: u32::MAX, ..Default::default() });
    let before = cs.compaction.clone();
    assert!(meta.is_duplicated_change_set(&mut cs, pb::StorageClassSpec::default()));
    assert_eq!(cs.compaction, before);
    cs.sequence = 10;
    cs.compaction = None;
    assert!(!meta.is_duplicated_change_set(&mut cs, pb::StorageClassSpec::default()));
}
