use idm_engine::cli::truncate;
use idm_engine::engine::connection::HeadInfo;
use idm_engine::engine::rules::{RuleEngine, SiteRule};
use idm_engine::engine::scheduler::{choose_filename, plan_download, task_state, transfer_step, TransferAction, TransferEvent};
use idm_engine::engine::task::Segment;
use idm_engine::engine::task::TaskState;
use idm_engine::server::state_label;

fn head(len: u64, name: Option<&str>) -> HeadInfo {
    HeadInfo { content_length: len, supports_range: true, filename: name.map(|s| s.to_string()) }
}

#[test]
fn filename_choice_order() {
    assert_eq!(choose_filename(Some("hint.bin".into()), Some("srv.bin".into())), "hint.bin");
    assert_eq!(choose_filename(Some(String::new()), Some("srv.bin".into())), "srv.bin");
    assert_eq!(choose_filename(None, None), "download.bin");
    assert_eq!(choose_filename(Some(String::new()), None), "download.bin");
}

#[test]
fn plan_applies_rules_classification_and_segments() {
    let mut rules = RuleEngine::new();
    let mut r = SiteRule::new("*.example.com");
    r.save_path = Some("/srv/example".into());
    rules.add(r);
    let p = plan_download(&rules, "https://cdn.example.com/m.mp4", "/home/dl".into(), true, None,
        &head(50_000_000, Some("m.mp4")), true);
    assert_eq!(p.filename, "m.mp4");
    assert_eq!(p.save_dir, "/srv/example");
    assert_eq!(p.category_dir, Some("video"));
    assert_eq!(p.total_size, 50_000_000);
    assert_eq!(p.segment_count, 8);

    let p = plan_download(&rules, "https://other.org/x", "/home/dl".into(), true, None,
        &head(10, None), false);
    assert_eq!(p.filename, "download.bin");
    assert_eq!(p.save_dir, "/home/dl");
    assert_eq!(p.category_dir, None);
    assert_eq!(p.segment_count, 1);
}

#[test]
fn no_range_support_means_one_connection() {
    let rules = RuleEngine::new();
    let no_ranges = HeadInfo { content_length: 2_000_000, supports_range: false, filename: None };
    let p = plan_download(&rules, "https://a.org/f", "/d".into(), false, None, &no_ranges, false);
    assert_eq!(p.segment_count, 1);
    let big = HeadInfo { content_length: 500_000_000, supports_range: false, filename: None };
    let p = plan_download(&rules, "https://a.org/f", "/d".into(), false, None, &big, false);
    assert_eq!(p.segment_count, 1);
    let p = plan_download(&rules, "https://a.org/f", "/d".into(), false, None, &head(2_000_000, None), false);
    assert_eq!(p.segment_count, 4);
}

#[test]
fn task_state_priority() {
    assert_eq!(task_state(true, true, true), TaskState::Cancelled);
    assert_eq!(task_state(false, true, true), TaskState::Paused);
    assert_eq!(task_state(false, false, true), TaskState::Completed);
    assert_eq!(task_state(false, false, false), TaskState::Running);
}

#[test]
fn state_labels() {
    assert_eq!(state_label(&TaskState::Pending), "pending");
    assert_eq!(state_label(&TaskState::Error("x".into())), "error");
    assert_eq!(state_label(&TaskState::Cancelled), "cancelled");
    assert_eq!(state_label(&TaskState::Completed), "completed");
}

#[test]
fn truncate_short_and_long() {
    assert_eq!(truncate("short.txt", 30), "short.txt");
    assert_eq!(truncate("abcdefghij", 5), "abcd…");
    assert_eq!(truncate("abcde", 5), "abcde");
    assert_eq!(truncate("", 0), "");
    assert_eq!(truncate("中文名字.mp4", 4), "中…");
}

#[test]
fn transfer_steps() {
    let mut seg = Segment::new(100, 199);
    assert_eq!(transfer_step(&seg, 1000, false, TransferEvent::Begin), TransferAction::Request { start: 100, end: 199 });
    assert_eq!(transfer_step(&seg, 1000, true, TransferEvent::Begin), TransferAction::Stop);
    assert_eq!(transfer_step(&seg, 1000, false, TransferEvent::Chunk), TransferAction::Write { offset: 100 });
    seg.add_downloaded(30);
    assert_eq!(transfer_step(&seg, 1000, false, TransferEvent::Chunk), TransferAction::Write { offset: 130 });
    assert_eq!(transfer_step(&seg, 1000, false, TransferEvent::Begin), TransferAction::Request { start: 130, end: 199 });
    assert_eq!(transfer_step(&seg, 1000, true, TransferEvent::Chunk), TransferAction::Stop);
    assert_eq!(transfer_step(&seg, 1000, false, TransferEvent::Finished), TransferAction::SetLength { len: 1000 });
    assert_eq!(transfer_step(&seg, 0, false, TransferEvent::Finished), TransferAction::Keep);
}
