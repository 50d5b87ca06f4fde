//! Decisions of the download scheduler: what a new download is called, where
//! it goes, how it is split, and what state a task reports.
use vstd::prelude::*;
use crate::engine::classify::{category_of, classify_filename, dir_name_en_text};
use crate::engine::connection::HeadInfo;
use crate::engine::rules::{rule_save_path_for, RuleEngine};
use crate::engine::task::{segment_count_spec, DownloadTask, Segment, TaskState};

verus! {

/// The name a download is saved under: the caller's hint when not empty,
/// else the name the server gave, else `download.bin`.
pub open spec fn chosen_filename(hint: Option<Seq<char>>, from_server: Option<Seq<char>>) -> Seq<char> {
    match hint {
        Some(h) if h.len() > 0 => h,
        _ => match from_server {
            Some(s) => s,
            None => "download.bin"@,
        },
    }
}

/// The characters of an optional string.
pub open spec fn opt_string(s: Option<String>) -> Option<Seq<char>> {
    match s {
        Some(t) => Some(t@),
        None => None,
    }
}

/// The number of connections for a download: by file size when the server
/// supports byte ranges, a single one when it does not.
pub open spec fn planned_segment_count(head: HeadInfo) -> usize {
    if head.supports_range {
        segment_count_spec(head.content_length)
    } else {
        1
    }
}

/// How a new download is laid out.
pub struct DownloadPlan {
    /// The file name.
    pub filename: String,
    /// The folder chosen by the site rules.
    pub save_dir: String,
    /// The category sub-folder inside `save_dir`, when classification is on.
    pub category_dir: Option<&'static str>,
    /// The file size the server announced.
    pub total_size: u64,
    /// The number of segments to split the file into.
    pub segment_count: usize,
}

/// The file name of a new download.
pub fn choose_filename(hint: Option<String>, from_server: Option<String>) -> (r: String)
    ensures
        r@ == chosen_filename(opt_string(hint), opt_string(from_server)),
{
    if let Some(h) = hint {
        if h.as_str().unicode_len() > 0 {
            return h;
        }
    }
    match from_server {
        Some(s) => s,
        None => "download.bin".to_owned(),
    }
}

/// Lays out a new download of `url`: its name (from the hint, the HEAD
/// response, or the default), its folder (the applicable rule's folder when
/// `rule_dir_usable` vouches for it, else `base_dir`), its category sub-folder
/// when classification is on, its size and its number of segments (a single
/// one when the server does not support byte ranges).
pub fn plan_download(
    rules: &RuleEngine,
    url: &str,
    base_dir: String,
    rule_dir_usable: bool,
    filename_hint: Option<String>,
    head: &HeadInfo,
    classify_enabled: bool,
) -> (r: DownloadPlan)
    ensures
        r.filename@ == chosen_filename(opt_string(filename_hint), opt_string(head.filename)),
        match rule_save_path_for(rules@, url@) {
            Some(p) => if rule_dir_usable { r.save_dir@ == p } else { r.save_dir == base_dir },
            None => r.save_dir == base_dir,
        },
        match r.category_dir {
            Some(d) => classify_enabled && d@ == dir_name_en_text(category_of(r.filename@)),
            None => !classify_enabled,
        },
        r.total_size == head.content_length,
        r.segment_count == planned_segment_count(*head),
        !head.supports_range ==> r.segment_count == 1,
{
    let from_server = match &head.filename {
        Some(f) => Some(f.as_str().to_owned()),
        None => None,
    };
    let filename = choose_filename(filename_hint, from_server);
    let save_dir = rules.resolve_save_dir(url, base_dir, rule_dir_usable);
    let category_dir = if classify_enabled {
        Some(classify_filename(filename.as_str()).dir_name_en())
    } else {
        None
    };
    DownloadPlan {
        filename,
        save_dir,
        category_dir,
        total_size: head.content_length,
        segment_count: if head.supports_range {
            DownloadTask::segment_count_for_size(head.content_length)
        } else {
            1
        },
    }
}

/// The number of segments planned never exceeds the size when it exceeds
/// one, so splitting a planned download is always allowed; and a server
/// without range support gets exactly one connection.
pub proof fn lemma_segment_count_fits(head: HeadInfo)
    ensures
        1 <= planned_segment_count(head) <= 16,
        head.content_length == 0 || planned_segment_count(head) <= 1
            || planned_segment_count(head) <= head.content_length,
        !head.supports_range ==> planned_segment_count(head) == 1,
{
}

/// What happens in the transfer of one segment.
pub enum TransferEvent {
    /// The segment's turn to connect has come (after any pause).
    Begin,
    /// A chunk of the response body has arrived.
    Chunk,
    /// Every segment's transfer has ended.
    Finished,
}

/// What the transfer of a segment does next.
#[derive(Debug, Clone, Copy, PartialEq, Eq, Structural)]
pub enum TransferAction {
    /// Stop: the download was cancelled.
    Stop,
    /// Request bytes `start..=end`.
    Request { start: u64, end: u64 },
    /// Write the chunk at this file offset, then count its bytes.
    Write { offset: u64 },
    /// Set the file's length to the announced size.
    SetLength { len: u64 },
    /// Leave the file as it is.
    Keep,
}

/// The action for an event of a segment's transfer.
pub open spec fn transfer_action(seg: Segment, total_size: u64, aborted: bool, event: TransferEvent) -> TransferAction {
    match event {
        TransferEvent::Begin => if aborted {
            TransferAction::Stop
        } else {
            TransferAction::Request { start: (seg.start + seg.downloaded) as u64, end: seg.end }
        },
        TransferEvent::Chunk => if aborted {
            TransferAction::Stop
        } else {
            TransferAction::Write { offset: (seg.start + seg.downloaded) as u64 }
        },
        TransferEvent::Finished => if total_size > 0 {
            TransferAction::SetLength { len: total_size }
        } else {
            TransferAction::Keep
        },
    }
}

/// Decides the next step of a segment's transfer: a cancelled download stops;
/// otherwise the request and each chunk's write start where the segment's
/// download stands, and at the end the file takes the announced size when it
/// is known.
pub fn transfer_step(seg: &Segment, total_size: u64, aborted: bool, event: TransferEvent) -> (r: TransferAction)
    requires
        !aborted ==> seg.start + seg.downloaded <= u64::MAX,
    ensures
        r == transfer_action(*seg, total_size, aborted, event),
{
    match event {
        TransferEvent::Begin => if aborted {
            TransferAction::Stop
        } else {
            TransferAction::Request { start: seg.next_range_start(), end: seg.end }
        },
        TransferEvent::Chunk => if aborted {
            TransferAction::Stop
        } else {
            TransferAction::Write { offset: seg.next_range_start() }
        },
        TransferEvent::Finished => if total_size > 0 {
            TransferAction::SetLength { len: total_size }
        } else {
            TransferAction::Keep
        },
    }
}

/// Chunks are written end to end: after writing a chunk of `n` bytes and
/// counting it, the next chunk is written `n` bytes further on.
pub proof fn lemma_chunks_contiguous(seg: Segment, n: u64, total_size: u64)
    requires
        seg.start + seg.downloaded + n <= u64::MAX,
    ensures
        ({
            let after = Segment { downloaded: (seg.downloaded + n) as u64, ..seg };
            &&& transfer_action(seg, total_size, false, TransferEvent::Chunk) matches TransferAction::Write { offset: o1 }
            &&& transfer_action(after, total_size, false, TransferEvent::Chunk) matches TransferAction::Write { offset: o2 }
            &&& o2 == o1 + n
        }),
{
}

/// The state a task reports: cancelled once aborted, else paused, else
/// completed when every segment is done, else running.
pub open spec fn reported_state(aborted: bool, paused: bool, done: bool) -> TaskState {
    if aborted {
        TaskState::Cancelled
    } else if paused {
        TaskState::Paused
    } else if done {
        TaskState::Completed
    } else {
        TaskState::Running
    }
}

/// What a task reports, over every combination of its flags: once aborted it
/// is cancelled whatever else holds; a task that is not aborted but paused is
/// paused whether or not its segments are done; a task neither aborted nor
/// paused is completed exactly when all its segments are done, and running
/// otherwise.
pub proof fn lemma_reported_state_cases(aborted: bool, paused: bool, done: bool)
    ensures
        aborted ==> reported_state(aborted, paused, done) == TaskState::Cancelled,
        !aborted && paused ==> reported_state(aborted, paused, done) == TaskState::Paused,
        !aborted && !paused && done ==> reported_state(aborted, paused, done) == TaskState::Completed,
        !aborted && !paused && !done ==> reported_state(aborted, paused, done) == TaskState::Running,
        reported_state(aborted, paused, done) != TaskState::Pending,
{
}

/// The state a task reports, from its abort and pause flags and whether all
/// of its segments are done.
pub fn task_state(aborted: bool, paused: bool, done: bool) -> (r: TaskState)
    ensures
        r == reported_state(aborted, paused, done),
{
    if aborted {
        TaskState::Cancelled
    } else if paused {
        TaskState::Paused
    } else if done {
        TaskState::Completed
    } else {
        TaskState::Running
    }
}

} // verus!
