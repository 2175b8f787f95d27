//! Segments of remote files and the names of local ones.
use kvengine::file_meta::FileType;
use kvengine::ia::filename::{parse_table_meta_filename, table_meta_file_local_path};
use kvengine::ia::segment::{align_to_segment, FileSegmentIdent};

#[test]
fn test_align_to_segment() {
    let segment_offsets: Vec<u64> = vec![0, 100, 200, 300];
    let cases = [
        // start_off, end_off, expected
        (0, 1, Some((0, 100))),
        (0, 100, Some((0, 100))),
        (0, 101, None),
        (99, 100, Some((0, 100))),
        (100, 101, Some((100, 200))),
        (101, 102, Some((100, 200))),
        (200, 300, Some((200, 300))),
        (299, 300, Some((200, 300))),
        (0, 300, None),
        (0, 1000, None),
        (1, 0, None),
    ];
    for (start, end, expected) in cases {
        let expected = expected.map(|(start_off, end_off)| FileSegmentIdent {
            file_id: 1,
            start_off,
            end_off,
        });
        assert_eq!(align_to_segment(1, &segment_offsets, start, end).ok(), expected);
    }
}

#[test]
fn test_table_meta_filename() {
    let data_dir = "/data";
    let cases = vec![
        (42, FileType::Sst, "/data/000000000000002a.sst.meta"),
        (43, FileType::Columnar, "/data/000000000000002b.col.meta"),
    ];
    for (file_id, file_type, expected) in cases {
        let path = table_meta_file_local_path(file_id, file_type, data_dir);
        assert_eq!(path, expected);

        let filename = path.rsplit('/').next().unwrap();
        assert_eq!(parse_table_meta_filename(filename).unwrap(), (file_id, file_type));
    }

    let invalid_cases = vec![
        "000000000000002a.sst",
        "000000000000002a.sst.meta1",
        "000000000000002a.s.meta",
        "x00000000000002a.sst.meta",
    ];
    for filename in invalid_cases {
        assert!(parse_table_meta_filename(filename).is_none());
    }
}
