//! Prefixes that are deleted, ranges and properties of shards.
use bytes::Bytes;
use kvengine::bound::InnerKey;
use kvengine::del_prefixes::{merge_del_prefixes_if_needed, DeletePrefixes};
use kvengine::key::convert_to_prefix_next;
use kvengine::keyspace::GLOBAL_SHARD_END_KEY;
use kvengine::merge_rule::need_clear_region_data_on_merge;
use kvengine::properties::{
    is_property_need_flush, is_property_need_initial_flush, TERM_KEY, TXN_FILE_REF,
};
use kvengine::range::{get_split_shard_index, get_splitting_start_end, ShardRange};

fn assert_prefix_invariant(del_prefix: &DeletePrefixes) {
    let bounds = del_prefix.inner_delete_bounds();
    assert_eq!(del_prefix.prefixes.len(), bounds.len());
    assert!(bounds.iter().all(|bound| {
        let mut p_c = bound.lower_bound.deref().to_vec();
        convert_to_prefix_next(&mut p_c);
        p_c == bound.upper_bound.deref()
    }));
}

#[test]
fn test_del_prefixes() {
    for keyspace_id in [0, 1] {
        let mut del_prefix = DeletePrefixes::new_with_keyspace_id(keyspace_id);
        assert_prefix_invariant(&del_prefix);
        assert!(del_prefix.is_empty());
        del_prefix = del_prefix.merge_prefix("0000101".as_bytes());
        assert!(!del_prefix.is_empty());
        assert_eq!(del_prefix.prefixes.len(), 1);
        assert_prefix_invariant(&del_prefix);
        for prefix in ["00001010", "0000101"] {
            let inner_prefix = InnerKey::from_outer_key(prefix.as_bytes());
            assert!(del_prefix.cover_prefix(inner_prefix));
        }
        for prefix in ["000010", "0000103"] {
            let inner_prefix = InnerKey::from_outer_key(prefix.as_bytes());
            assert!(!del_prefix.cover_prefix(inner_prefix));
        }

        del_prefix = del_prefix.merge_prefix("0000105".as_bytes());
        assert_prefix_invariant(&del_prefix);
        let bin = del_prefix.marshal();
        del_prefix = DeletePrefixes::unmarshal(&bin, keyspace_id);
        assert_prefix_invariant(&del_prefix);
        assert_eq!(del_prefix.prefixes.len(), 2);
        for prefix in ["00001010", "0000101", "00001050", "0000105"] {
            let inner_prefix = InnerKey::from_outer_key(prefix.as_bytes());
            assert!(del_prefix.cover_prefix(inner_prefix));
        }
        for prefix in ["000010", "0000103"] {
            let inner_prefix = InnerKey::from_outer_key(prefix.as_bytes());
            assert!(!del_prefix.cover_prefix(inner_prefix));
        }

        del_prefix = del_prefix.merge_prefix("000010".as_bytes());
        assert_prefix_invariant(&del_prefix);
        assert_eq!(del_prefix.prefixes.len(), 1);
        for prefix in ["000010", "0000101", "0000103", "0000104"] {
            let inner_prefix = InnerKey::from_outer_key(prefix.as_bytes());
            assert!(del_prefix.cover_prefix(inner_prefix));
        }
        for prefix in ["00001", "000011"] {
            let inner_prefix = InnerKey::from_outer_key(prefix.as_bytes());
            assert!(!del_prefix.cover_prefix(inner_prefix));
        }

        del_prefix = DeletePrefixes::new_with_keyspace_id(keyspace_id);
        del_prefix = del_prefix.merge_prefix("0000101".as_bytes());
        del_prefix = del_prefix.merge_prefix("0000102".as_bytes());
        assert_prefix_invariant(&del_prefix);
        for (start, end) in [("0000101", "00001011"), ("0000102", "00001022")] {
            let inner_start = InnerKey::from_outer_key(start.as_bytes());
            let inner_end = InnerKey::from_outer_key(end.as_bytes());
            assert!(del_prefix.cover_range(inner_start, inner_end));
        }
        for (start, end) in [
            ("000099", "0000100"),
            ("0000101", "0000102"),
            ("0000102", "0000103"),
        ] {
            let inner_start = InnerKey::from_outer_key(start.as_bytes());
            let inner_end = InnerKey::from_outer_key(end.as_bytes());
            assert!(!del_prefix.cover_range(inner_start, inner_end));
        }

        del_prefix = DeletePrefixes::new_with_keyspace_id(keyspace_id);
        del_prefix = del_prefix.merge_prefix("0000101".as_bytes());
        del_prefix = del_prefix.merge_prefix("00001033".as_bytes());
        del_prefix = del_prefix.merge_prefix("00001055".as_bytes());
        del_prefix = del_prefix.merge_prefix("0000107".as_bytes());
        assert_prefix_invariant(&del_prefix);

        let split_del_range = del_prefix.build_split("00001033".as_bytes(), "00001055".as_bytes());
        assert_prefix_invariant(&split_del_range);
        assert_eq!(split_del_range.prefixes.len(), 1);
        assert_eq!(&split_del_range.prefixes[0], "00001033".as_bytes());

        let split_del_range = del_prefix.build_split("00001034".as_bytes(), "00001055".as_bytes());
        assert_prefix_invariant(&split_del_range);
        assert_eq!(split_del_range.prefixes.len(), 0);

        let split_del_range =
            del_prefix.build_split("000010334".as_bytes(), "000010555".as_bytes());
        assert_prefix_invariant(&split_del_range);
        assert_eq!(split_del_range.prefixes.len(), 2);
        assert_eq!(&split_del_range.prefixes[0], "00001033".as_bytes());
        assert_eq!(&split_del_range.prefixes[1], "00001055".as_bytes());

        del_prefix = DeletePrefixes::new_with_keyspace_id(keyspace_id)
            .merge_prefix("0000100".as_bytes())
            .merge_prefix("0000200".as_bytes())
            .merge_prefix("0000300".as_bytes());
        assert_prefix_invariant(&del_prefix);
        del_prefix = del_prefix.split(
            &DeletePrefixes::new_with_keyspace_id(keyspace_id).merge_prefix("0000100".as_bytes()),
        );
        assert_prefix_invariant(&del_prefix);
        assert_eq!(del_prefix.prefixes.len(), 2);
        assert!(!del_prefix.cover_prefix(InnerKey::from_outer_key("0000100".as_bytes())));
        assert!(del_prefix.cover_prefix(InnerKey::from_outer_key("0000200".as_bytes())));
        assert!(del_prefix.cover_prefix(InnerKey::from_outer_key("0000300".as_bytes())));
        del_prefix = del_prefix.split(
            &DeletePrefixes::new_with_keyspace_id(keyspace_id)
                .merge_prefix("0000200".as_bytes())
                .merge_prefix("0000300".as_bytes()),
        );
        assert_prefix_invariant(&del_prefix);
        assert_eq!(del_prefix.prefixes.len(), 0);
        assert!(!del_prefix.cover_prefix(InnerKey::from_outer_key("0000100".as_bytes())));
        assert!(!del_prefix.cover_prefix(InnerKey::from_outer_key("0000200".as_bytes())));
        assert!(!del_prefix.cover_prefix(InnerKey::from_outer_key("0000300".as_bytes())));
    }
}

#[test]
fn test_del_prefixes_merge_prefix() {
    for keyspace_id in [0, 1] {
        let mut first = DeletePrefixes::new_with_keyspace_id(keyspace_id);
        first = first.merge_prefix("0000101".as_bytes());
        first = first.merge_prefix("00001033".as_bytes());
        first = first.merge_prefix("00001055".as_bytes());
        first = first.merge_prefix("0000107".as_bytes());

        let mut second = DeletePrefixes::new_with_keyspace_id(keyspace_id);
        second = second.merge_prefix("0000101".as_bytes());
        second = second.merge_prefix("00001022".as_bytes());
        second = second.merge_prefix("00001044".as_bytes());
        second = second.merge_prefix("00001066".as_bytes());
        second = second.merge_prefix("0000107".as_bytes());

        let merged = merge_del_prefixes_if_needed(
            Some(Bytes::from(first.marshal())),
            Some(Bytes::from(second.marshal())),
            keyspace_id,
        )
        .unwrap();
        let merged_del_prefixes = DeletePrefixes::unmarshal(&merged, keyspace_id);
        assert_eq!(
            merged_del_prefixes.prefixes,
            vec![
                "0000101".as_bytes(),
                "00001022".as_bytes(),
                "00001033".as_bytes(),
                "00001044".as_bytes(),
                "00001055".as_bytes(),
                "00001066".as_bytes(),
                "0000107".as_bytes()
            ]
        );

        let rev_merged = merge_del_prefixes_if_needed(
            Some(Bytes::from(second.marshal())),
            Some(Bytes::from(first.marshal())),
            keyspace_id,
        );
        let rev_merged_del_prefixes = DeletePrefixes::unmarshal(&rev_merged.unwrap(), keyspace_id);
        assert_eq!(merged_del_prefixes.prefixes, rev_merged_del_prefixes.prefixes);
    }
}

#[test]
fn one_side_of_a_merge_may_delete_nothing() {
    let some = DeletePrefixes::new_with_keyspace_id(1).merge_prefix(b"x001a");
    let data = some.marshal();
    let left = merge_del_prefixes_if_needed(Some(Bytes::from(data.clone())), None, 1);
    let right = merge_del_prefixes_if_needed(None, Some(Bytes::from(data.clone())), 1);
    assert_eq!(left, Some(data.clone()));
    assert_eq!(right, Some(data));
    assert_eq!(merge_del_prefixes_if_needed(None, None, 1), None);
}

#[test]
fn test_del_prefixes_merge_prefixes() {
    let cases = vec![
        (
            vec![], // sorted_prefixes
            vec![], // expected prefixes
        ),
        (vec!["00005000"], vec!["00005000"]),
        (vec![], vec!["00005000"]),
        (
            vec!["00005000", "00005001", "00006"],
            vec!["00005000", "00005001", "00006"],
        ),
        (
            vec!["00004000", "0000500", "00007"],
            vec!["00004000", "0000500", "00006", "00007"],
        ),
        (vec!["0000", "0001"], vec!["0000", "0001"]),
        (vec!["00001"], vec!["0000", "0001"]),
    ];

    let mut del_prefix = DeletePrefixes::new_with_keyspace_id(1);
    for (idx, (sorted_prefixes, expected_prefixes)) in cases.into_iter().enumerate() {
        del_prefix.schedule_at = idx as u64;
        let sorted_prefixes: Vec<Vec<u8>> =
            sorted_prefixes.iter().map(|p: &&str| p.as_bytes().to_vec()).collect();
        del_prefix = del_prefix.merge_prefixes(&sorted_prefixes);
        let expected_prefixes =
            expected_prefixes.iter().map(|p: &&str| p.as_bytes().to_vec()).collect::<Vec<_>>();
        assert_eq!(del_prefix.prefixes, expected_prefixes, "case {}", idx);
        assert_eq!(del_prefix.schedule_at, idx as u64);
        assert_eq!(del_prefix.keyspace_prefix_len, 4);
    }
}

#[test]
fn test_del_prefixes_complementary_ranges() {
    let mut del_prefix = DeletePrefixes::new_with_keyspace_id(1);
    del_prefix = del_prefix.merge_prefix("0000-1".as_bytes());
    del_prefix = del_prefix.merge_prefix("0000-2".as_bytes());
    del_prefix = del_prefix.merge_prefix("0000-33".as_bytes());
    del_prefix = del_prefix.merge_prefix("0000-5".as_bytes());

    let cases: Vec<(
        (&str, &str),      // outer_range
        Vec<(&str, &str)>, // expected
    )> = vec![
        (("0000-0", "0000-1"), vec![("0000-0", "0000-1")]),
        (("0000-0", "0000-2"), vec![("0000-0", "0000-1")]),
        (("0000-0", "0000-3"), vec![("0000-0", "0000-1")]),
        (
            ("0000-0", "0000-33"),
            vec![("0000-0", "0000-1"), ("0000-3", "0000-33")],
        ),
        (
            ("0000-0", "0000-333"),
            vec![("0000-0", "0000-1"), ("0000-3", "0000-33")],
        ),
        (
            ("0000-0", "0000-4"),
            vec![("0000-0", "0000-1"), ("0000-3", "0000-33"), ("0000-34", "0000-4")],
        ),
        (
            ("0000-0", "0000-9"),
            vec![
                ("0000-0", "0000-1"),
                ("0000-3", "0000-33"),
                ("0000-34", "0000-5"),
                ("0000-6", "0000-9"),
            ],
        ),
    ];

    for (i, (outer_range, expected)) in cases.into_iter().enumerate() {
        let ranges =
            del_prefix.get_complementary_ranges(outer_range.0.as_bytes(), outer_range.1.as_bytes());
        let expected = expected
            .into_iter()
            .map(|(start, end)| (start.as_bytes().to_vec(), end.as_bytes().to_vec()))
            .collect::<Vec<_>>();
        assert_eq!(ranges, expected, "case {}: {:?}", i, outer_range);
    }
}

#[test]
fn test_range_keyspace_id() {
    let mut range = ShardRange::new(&[b'x', 0, 0, 1], &[b'x', 0, 0, 2]);
    assert_eq!(range.keyspace_id, 1);
    range = ShardRange::new(&[], &GLOBAL_SHARD_END_KEY);
    assert_eq!(range.keyspace_id, 0);
    range = ShardRange::new(&[b't', 0, 0, 0], &[]);
    assert_eq!(range.keyspace_id, 0);
}

#[test]
fn test_rewrite_range_prefix() {
    let mut del_prefix = DeletePrefixes::new_with_keyspace_id(1);
    del_prefix = del_prefix.merge_prefix("0000-01".as_bytes());
    del_prefix = del_prefix.merge_prefix("0000-10".as_bytes());
    del_prefix = del_prefix.merge_prefix("0000-21".as_bytes());
    assert!(del_prefix.prefixes.contains(&"0000-01".as_bytes().to_vec()));
    assert!(del_prefix.prefixes.contains(&"0000-10".as_bytes().to_vec()));
    assert!(del_prefix.prefixes.contains(&"0000-21".as_bytes().to_vec()));

    del_prefix.rewrite_range_prefix("1111".as_bytes());
    assert!(del_prefix.prefixes.contains(&"1111-01".as_bytes().to_vec()));
    assert!(del_prefix.prefixes.contains(&"1111-10".as_bytes().to_vec()));
    assert!(del_prefix.prefixes.contains(&"1111-21".as_bytes().to_vec()));
}

#[test]
fn test_properties() {
    let cases: Vec<(
        &'static str, // property_key
        bool,         // need_initial_flush
        bool,         // need_flush
    )> = vec![(TERM_KEY, false, true), (TXN_FILE_REF, true, true)];

    for (property_key, need_initial_flush, need_flush) in cases {
        assert_eq!(is_property_need_initial_flush(property_key), need_initial_flush);
        assert_eq!(is_property_need_flush(property_key), need_flush);
    }
}

#[test]
fn test_need_clear_region_data_on_merge() {
    let cases: Vec<(&[u8], &[u8], (bool, bool))> = vec![
        // Txn
        (
            b"x0000",       // source_outer_start
            b"x0001",       // target_outer_start
            (false, false), // (clear_source, clear_target)
        ),
        (b"x0000", b"x0010", (true, true)),
        // Raw
        (b"r0000", b"r0001", (false, false)),
        (b"r0000", b"r0010", (false, false)),
        // Txn & Raw
        (b"x0000", b"r0000", (true, false)),
        // Txn & TiDB/Unknown
        (b"x0000", b"t", (true, false)),
        (b"t", b"x0000", (false, true)),
        (b"x0000", b"m", (true, false)),
        (b"m", b"x0000", (false, true)),
        (b"x0000", b"", (true, false)),
        (b"", b"x0000", (false, true)),
        // TiDB/Unknown
        (b"t", b"m", (false, false)),
        (b"m", b"", (false, false)),
        (b"", b"t", (false, false)),
    ];

    for (idx, (source_outer_start, target_outer_start, expected)) in cases.into_iter().enumerate() {
        let res = need_clear_region_data_on_merge(source_outer_start, target_outer_start);
        assert_eq!(res, expected, "case {}", idx);
    }
}

#[test]
fn keys_of_a_range_are_split_by_the_split_keys() {
    let keys = vec![b"x001b".to_vec(), b"x001d".to_vec()];
    let start = b"x001a".to_vec();
    let end = b"x001z".to_vec();
    assert_eq!(get_splitting_start_end(&start, &end, &keys, 0), (&b"x001a"[..], &b"x001b"[..]));
    assert_eq!(get_splitting_start_end(&start, &end, &keys, 1), (&b"x001b"[..], &b"x001d"[..]));
    assert_eq!(get_splitting_start_end(&start, &end, &keys, 2), (&b"x001d"[..], &b"x001z"[..]));
    assert_eq!(get_split_shard_index(&keys, b"x001a"), 0);
    assert_eq!(get_split_shard_index(&keys, b"x001b"), 1);
    assert_eq!(get_split_shard_index(&keys, b"x001c"), 1);
    assert_eq!(get_split_shard_index(&keys, b"x001x"), 2);
}

#[test]
fn the_end_of_a_keyspace_is_the_end_of_all_inner_keys() {
    let range = ShardRange::new(&[b'x', 0, 0, 1], &[b'x', 0, 0, 2]);
    assert_eq!(range.inner_start().deref(), b"");
    assert_eq!(range.inner_end().deref(), &GLOBAL_SHARD_END_KEY[..]);
    assert_eq!(range.keyspace_prefix(), &[b'x', 0, 0, 1]);
    assert_eq!(range.to_outer_key(InnerKey::from_inner_buf(b"k")), [b'x', 0, 0, 1, b'k']);
    assert!(range.key_is_in_range(&[b'x', 0, 0, 1, 255]));
    assert!(!range.key_is_in_range(&[b'x', 0, 0, 2]));
}

#[test]
fn a_part_between_equal_split_keys_holds_nothing() {
    let keys = vec![b"c".to_vec(), b"c".to_vec(), b"e".to_vec()];
    assert_eq!(get_split_shard_index(&keys, b"b"), 0);
    assert_eq!(get_split_shard_index(&keys, b"c"), 2);
    assert_eq!(get_split_shard_index(&keys, b"f"), 3);
    assert_eq!(get_splitting_start_end(b"a", b"z", &keys, 1), (&b"c"[..], &b"c"[..]));
}
