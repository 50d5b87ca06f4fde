use idm_engine::engine::connection::{extract_filename, range_header_value, range_response_ok, HeadInfo};

#[test]
fn filename_from_content_disposition() {
    assert_eq!(extract_filename(Some("attachment; filename=\"report.pdf\""), "/x/y"), Some("report.pdf".to_string()));
    assert_eq!(extract_filename(Some("attachment; filename='a b.zip'"), "/x/y"), Some("a b.zip".to_string()));
    assert_eq!(extract_filename(Some("attachment;filename*=UTF-8''%E6%96%87.txt"), "/"), Some("%E6%96%87.txt".to_string()));
    assert_eq!(extract_filename(Some("filename=first.bin; filename=second.bin"), "/"), Some("first.bin".to_string()));
}

#[test]
fn filename_falls_back_to_url_path() {
    assert_eq!(extract_filename(None, "/files/archive.tar.gz"), Some("archive.tar.gz".to_string()));
    assert_eq!(extract_filename(Some("inline"), "/files/a.iso"), Some("a.iso".to_string()));
    assert_eq!(extract_filename(Some("attachment; filename=\"\""), "/files/b.iso"), Some("b.iso".to_string()));
    assert_eq!(extract_filename(None, "/files/"), None);
    assert_eq!(extract_filename(None, ""), None);
    assert_eq!(extract_filename(None, "plain"), Some("plain".to_string()));
}

#[test]
fn head_info_from_headers() {
    let h = HeadInfo::from_headers(Some("1234"), Some(b"bytes"), None, "/dl/file.bin");
    assert_eq!(h.content_length, 1234);
    assert!(h.supports_range);
    assert_eq!(h.filename.as_deref(), Some("file.bin"));

    let h = HeadInfo::from_headers(Some("+77"), Some(b"none"), Some("attachment; filename=x.zip"), "/");
    assert_eq!(h.content_length, 77);
    assert!(!h.supports_range);
    assert_eq!(h.filename.as_deref(), Some("x.zip"));

    let h = HeadInfo::from_headers(Some("12a"), None, None, "/");
    assert_eq!(h.content_length, 0);
    assert!(!h.supports_range);
    assert_eq!(h.filename, None);

    let h = HeadInfo::from_headers(Some("18446744073709551616"), Some(b"Bytes"), None, "/");
    assert_eq!(h.content_length, 0);
    assert!(!h.supports_range);

    assert_eq!(HeadInfo::from_headers(None, None, None, "/").content_length, 0);
    assert_eq!(HeadInfo::from_headers(Some("-5"), None, None, "/").content_length, 0);
    assert_eq!(HeadInfo::from_headers(Some("18446744073709551615"), None, None, "/").content_length, u64::MAX);
}

#[test]
fn range_statuses() {
    assert!(range_response_ok(206));
    assert!(range_response_ok(200));
    assert!(!range_response_ok(416));
    assert!(!range_response_ok(404));
}

#[test]
fn range_header_text() {
    assert_eq!(range_header_value(0, Some(262143)), "bytes=0-262143");
    assert_eq!(range_header_value(786432, None), "bytes=786432-");
    assert_eq!(range_header_value(9, Some(10)), "bytes=9-10");
    for (a, b) in [(0u64, 0u64), (1, 99), (100, 1000), (u64::MAX - 1, u64::MAX)] {
        assert_eq!(range_header_value(a, Some(b)), format!("bytes={}-{}", a, b));
    }
}
