use easy_file::protocols::s3::{parse_s3_path, range_header, PartCursor, PART_SIZE};

#[test]
fn parse_full_path() {
    let loc = parse_s3_path("s3://ak@sk/cos.ap-chengdu.myqcloud.com/test-1259750376/123").unwrap();
    assert_eq!(loc.access_key_id, "ak");
    assert_eq!(loc.access_key_secret, "sk");
    assert_eq!(loc.end_point, "https://cos.ap-chengdu.myqcloud.com");
    assert_eq!(loc.bucket_name, "test-1259750376");
    assert_eq!(loc.object_name, "123");
}

#[test]
fn parse_path_without_object() {
    let loc = parse_s3_path("s3://ak@sk/cos.ap-chengdu.myqcloud.com/test-1259750376").unwrap();
    assert_eq!(loc.bucket_name, "test-1259750376");
    assert_eq!(loc.object_name, "");
    let loc = parse_s3_path("s3://ak@sk/host").unwrap();
    assert_eq!(loc.end_point, "https://host");
    assert_eq!(loc.bucket_name, "");
    assert_eq!(loc.object_name, "");
}

#[test]
fn parse_path_keeps_only_fourth_segment_as_object() {
    let loc = parse_s3_path("s3://a@b@c/h/bk/dir/file").unwrap();
    assert_eq!(loc.access_key_id, "a");
    assert_eq!(loc.access_key_secret, "b");
    assert_eq!(loc.object_name, "dir");
}

#[test]
fn parse_rejects_malformed_paths() {
    assert!(parse_s3_path("s3:ak@sk/host/b/o").is_none());
    assert!(parse_s3_path("s3://ak@sk").is_none());
    assert!(parse_s3_path("s3://aksk/host/b").is_none());
}

#[test]
fn range_header_forms() {
    assert_eq!(range_header(-1, 10), None);
    assert_eq!(range_header(-1, -1), None);
    assert_eq!(range_header(3, -1), Some("bytes=3-".to_string()));
    assert_eq!(range_header(3, 4), Some("bytes=3-6".to_string()));
    assert_eq!(range_header(0, 1), Some("bytes=0-0".to_string()));
    assert_eq!(range_header(20971520, 20971520), Some("bytes=20971520-41943039".to_string()));
}

fn visit(len: u64) -> Vec<(u64, u64, i32)> {
    let mut cursor = PartCursor::new(len);
    let mut parts = Vec::new();
    loop {
        parts.push((cursor.offset(), cursor.seek_offset(), cursor.part_number()));
        if !cursor.advance() {
            break;
        }
    }
    parts
}

#[test]
fn empty_file_is_one_part() {
    assert_eq!(visit(0), vec![(0, 0, 1)]);
}

#[test]
fn file_of_one_part_size_is_one_part() {
    assert_eq!(visit(PART_SIZE), vec![(0, 0, 1)]);
    assert_eq!(visit(17), vec![(0, 0, 1)]);
}

#[test]
fn later_parts_start_one_byte_late() {
    assert_eq!(
        visit(PART_SIZE + 1),
        vec![(0, 0, 1), (PART_SIZE, PART_SIZE + 1, 2)]
    );
    assert_eq!(visit(3 * PART_SIZE).len(), 3);
    assert_eq!(visit(3 * PART_SIZE + 1).len(), 4);
}
