use idm_engine::engine::task::{DownloadTask, Segment};
use std::path::{Path, PathBuf};
use std::sync::{Arc, Mutex};

#[test]
fn test_segment_count() {
    assert_eq!(DownloadTask::segment_count_for_size(500_000), 1);
    assert_eq!(DownloadTask::segment_count_for_size(5_000_000), 4);
    assert_eq!(DownloadTask::segment_count_for_size(50_000_000), 8);
    assert_eq!(DownloadTask::segment_count_for_size(200_000_000), 16);
}

#[test]
fn test_split_segments() {
    let mut task = DownloadTask::new(
        "http://example.com/f".into(), "f.bin".into(),
        Path::new("out").join("f.bin"),
    );
    task.total_size = 1024 * 1024;
    task.split_segments(4);
    assert_eq!(task.segments.len(), 4);
    assert_eq!(task.segments[0].start, 0);
    assert_eq!(task.segments[0].end, 262143);
    assert_eq!(task.segments[3].start, 786432);
    assert_eq!(task.segments[3].end, 1048575);
}

#[test]
fn test_segment_progress() {
    let mut seg = Segment::new(0, 999);
    assert_eq!(seg.len(), 1000);
    assert_eq!(seg.remaining(), 1000);
    seg.add_downloaded(500);
    assert_eq!(seg.remaining(), 500);
    assert!(!seg.is_done());
    seg.add_downloaded(500);
    assert!(seg.is_done());
}

#[test]
fn test_task_progress() {
    let mut task = DownloadTask::new("url".into(), "f".into(), PathBuf::from("f"));
    task.total_size = 1000;
    task.split_segments(2);
    task.segments[0].add_downloaded(500);
    task.segments[1].add_downloaded(250);
    let progress = task.downloaded_total().unwrap() as f64 / task.total_size as f64;
    assert!((progress - 0.75).abs() < 0.001);
}

#[test]
fn test_arc_segment_shared() {
    let seg = Arc::new(Mutex::new(Segment::new(0, 999)));
    let seg2 = Arc::clone(&seg);
    seg.lock().unwrap().add_downloaded(500);
    seg2.lock().unwrap().add_downloaded(250);
    assert_eq!(seg.lock().unwrap().downloaded, 750);
    assert_eq!(seg2.lock().unwrap().downloaded, 750);
}

#[test]
fn segment_count_thresholds() {
    assert_eq!(DownloadTask::segment_count_for_size(0), 1);
    assert_eq!(DownloadTask::segment_count_for_size(1024 * 1024 - 1), 1);
    assert_eq!(DownloadTask::segment_count_for_size(1024 * 1024), 4);
    assert_eq!(DownloadTask::segment_count_for_size(10 * 1024 * 1024), 8);
    assert_eq!(DownloadTask::segment_count_for_size(100 * 1024 * 1024), 16);
    assert_eq!(DownloadTask::segment_count_for_size(u64::MAX), 16);
}

#[test]
fn split_covers_file_with_remainder_in_last() {
    let mut task = DownloadTask::new("u".into(), "f".into(), PathBuf::from("f"));
    task.total_size = 10;
    task.split_segments(3);
    let ranges: Vec<(u64, u64)> = task.segments.iter().map(|s| (s.start, s.end)).collect();
    assert_eq!(ranges, vec![(0, 2), (3, 5), (6, 9)]);
    let sum: u64 = task.segments.iter().map(|s| s.len()).sum();
    assert_eq!(sum, 10);
    assert_eq!(task.downloaded_total(), Some(0));
    assert!(!task.is_done());
}

#[test]
fn split_single_and_empty() {
    let mut task = DownloadTask::new("u".into(), "f".into(), PathBuf::from("f"));
    task.total_size = 0;
    task.split_segments(8);
    assert_eq!(task.segments.len(), 1);
    assert_eq!((task.segments[0].start, task.segments[0].end), (0, 0));
    task.total_size = 500;
    task.split_segments(1);
    assert_eq!(task.segments.len(), 1);
    assert_eq!((task.segments[0].start, task.segments[0].end), (0, 499));
    task.split_segments(0);
    assert_eq!(task.segments.len(), 1);
    task.total_size = 4;
    task.split_segments(4);
    let ranges: Vec<(u64, u64)> = task.segments.iter().map(|s| (s.start, s.end)).collect();
    assert_eq!(ranges, vec![(0, 0), (1, 1), (2, 2), (3, 3)]);
}

#[test]
fn new_task_starts_empty_with_distinct_ids() {
    let a = DownloadTask::new("u".into(), "f".into(), PathBuf::from("p"));
    let b = DownloadTask::new("u".into(), "f".into(), PathBuf::from("p"));
    assert_eq!(a.total_size, 0);
    assert!(a.segments.is_empty());
    assert!(a.is_done());
    assert_ne!(a.id, b.id);
    assert_eq!(a.file_path, PathBuf::from("p"));
}

#[test]
fn resume_point_follows_downloaded_bytes() {
    let mut seg = Segment::new(100, 199);
    assert_eq!(seg.next_range_start(), 100);
    assert_eq!(seg.add_downloaded(30), 30);
    assert_eq!(seg.next_range_start(), 130);
    seg.add_downloaded(20);
    assert_eq!(seg.next_range_start(), 150);
    assert_eq!(seg.remaining(), 50);
    assert_eq!(seg.add_downloaded(70), 120);
    assert_eq!(seg.remaining(), 0);
    assert!(seg.is_done());
}

#[test]
fn inverted_segment_is_empty_and_done() {
    let seg = Segment::new(10, 5);
    assert_eq!(seg.len(), 0);
    assert_eq!(seg.remaining(), 0);
    assert!(seg.is_done());
}

#[test]
fn downloaded_total_overflow_is_none() {
    let mut task = DownloadTask::new("u".into(), "f".into(), PathBuf::from("f"));
    task.total_size = 4;
    task.split_segments(2);
    task.segments[0].downloaded = u64::MAX;
    task.segments[1].downloaded = 1;
    assert_eq!(task.downloaded_total(), None);
}

#[test]
fn is_done_stops_at_first_unfinished_segment() {
    let mut task = DownloadTask::new("u".into(), "f".into(), PathBuf::from("f"));
    task.total_size = 10;
    task.split_segments(2);
    task.segments[0].add_downloaded(5);
    assert!(!task.is_done());
    task.segments.push(Segment::new(0, u64::MAX));
    // the first segment is done, the second is not: the third is never measured
    assert!(!task.is_done());
}
