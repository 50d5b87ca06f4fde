//! Download tasks and their byte-range segments.
use vstd::prelude::*;
use std::path::PathBuf;
use uuid::Uuid;

verus! {

#[verifier::external_type_specification]
#[verifier::external_body]
pub struct ExUuid(Uuid);

#[verifier::external_type_specification]
#[verifier::external_body]
pub struct ExPathBuf(PathBuf);

/// Calls `uuid::Uuid::new_v4`: a random identifier, of which nothing is promised.
#[verifier::external_body]
pub(crate) fn new_uuid() -> (r: Uuid) {
    Uuid::new_v4()
}

/// The state of a download task.
#[derive(Debug, Clone, PartialEq)]
pub enum TaskState {
    Pending,
    Running,
    Paused,
    Completed,
    Error(String),
    Cancelled,
}

/// One byte range `start..=end` of a file, with the number of its bytes
/// downloaded so far.
#[derive(Debug, Clone, Copy, PartialEq, Eq, Structural)]
pub struct Segment {
    pub start: u64,
    pub end: u64,
    pub downloaded: u64,
}

impl Segment {
    /// The number of bytes in `start..=end` (none when `end < start`).
    pub open spec fn byte_len(self) -> int {
        if self.end >= self.start {
            self.end - self.start + 1
        } else {
            0
        }
    }

    /// The bytes of the range that are still to be downloaded.
    pub open spec fn remaining_bytes(self) -> int {
        if self.downloaded >= self.byte_len() {
            0
        } else {
            self.byte_len() - self.downloaded
        }
    }

    /// A segment over `start..=end` with nothing downloaded.
    pub fn new(start: u64, end: u64) -> (r: Self)
        ensures
            r.start == start,
            r.end == end,
            r.downloaded == 0,
    {
        Segment { start, end, downloaded: 0 }
    }

    /// The number of bytes in the range.
    pub fn len(&self) -> (r: u64)
        requires
            self.byte_len() <= u64::MAX,
        ensures
            r == self.byte_len(),
    {
        if self.end >= self.start {
            self.end - self.start + 1
        } else {
            0
        }
    }

    /// The bytes still to be downloaded, never below zero.
    pub fn remaining(&self) -> (r: u64)
        requires
            self.byte_len() <= u64::MAX,
        ensures
            r == self.remaining_bytes(),
    {
        self.len().saturating_sub(self.downloaded)
    }

    /// The offset at which the download of this range resumes.
    pub fn next_range_start(&self) -> (r: u64)
        requires
            self.start + self.downloaded <= u64::MAX,
        ensures
            r == self.start + self.downloaded,
    {
        self.start + self.downloaded
    }

    /// Counts `n` more downloaded bytes and returns the new count.
    pub fn add_downloaded(&mut self, n: u64) -> (r: u64)
        requires
            old(self).downloaded + n <= u64::MAX,
        ensures
            final(self).start == old(self).start,
            final(self).end == old(self).end,
            final(self).downloaded == old(self).downloaded + n,
            r == final(self).downloaded,
    {
        self.downloaded = self.downloaded + n;
        self.downloaded
    }

    /// Whether every byte of the range has been downloaded.
    pub fn is_done(&self) -> (r: bool)
        requires
            self.byte_len() <= u64::MAX,
        ensures
            r == (self.downloaded >= self.byte_len()),
    {
        self.downloaded >= self.len()
    }
}

/// A segment is done exactly when nothing of it remains, and what remains
/// and what was downloaded add up to its length until it is done.
pub proof fn lemma_done_iff_nothing_remaining(seg: Segment)
    ensures
        (seg.downloaded >= seg.byte_len()) <==> seg.remaining_bytes() == 0,
        seg.downloaded < seg.byte_len() ==> seg.remaining_bytes() + seg.downloaded == seg.byte_len(),
{
}

/// A non-empty file freshly split has nothing downloaded and is not done:
/// every one of its segments still has bytes to fetch.
pub proof fn lemma_fresh_split_not_done(total: u64, n: usize)
    requires
        total > 0,
        n <= total,
    ensures
        forall|i: int| 0 <= i < planned_segments(total, n).len() ==> {
            &&& (#[trigger] planned_segments(total, n)[i]).downloaded == 0
            &&& planned_segments(total, n)[i].byte_len() >= 1
        },
        sum_downloaded(planned_segments(total, n)) == 0,
{
    lemma_split_covers_file(total, n);
    lemma_sum_zero(planned_segments(total, n));
}

proof fn lemma_sum_zero(segs: Seq<Segment>)
    requires
        forall|i: int| 0 <= i < segs.len() ==> (#[trigger] segs[i]).downloaded == 0,
    ensures
        sum_downloaded(segs) == 0,
    decreases segs.len(),
{
    if segs.len() > 0 {
        assert forall|i: int| 0 <= i < segs.drop_last().len() implies (#[trigger] segs.drop_last()[i]).downloaded == 0 by {
            assert(segs.drop_last()[i] == segs[i]);
        }
        lemma_sum_zero(segs.drop_last());
    }
}

/// The number of connections used for a file of `size` bytes: one below
/// 1 MiB, four below 10 MiB, eight below 100 MiB, sixteen above.
pub open spec fn segment_count_spec(size: u64) -> usize {
    if size < 1024 * 1024 {
        1
    } else if size < 10 * 1024 * 1024 {
        4
    } else if size < 100 * 1024 * 1024 {
        8
    } else {
        16
    }
}

/// Segment `i` of a file of `total` bytes split `n` ways: every segment holds
/// `total / n` bytes, and the last one also holds the remainder.
pub open spec fn planned_segment(total: u64, n: usize, i: int) -> Segment {
    let q = total / (n as u64);
    Segment {
        start: (i * q) as u64,
        end: (if i == n - 1 {
            total - 1
        } else {
            (i + 1) * q - 1
        }) as u64,
        downloaded: 0,
    }
}

/// The segments that `split_segments` gives a file of `total` bytes asked to
/// be split `n` ways: a single segment `0..=total-1` (`0..=0` for an empty
/// file) when `total` is zero or `n` at most one, else `n` segments.
pub open spec fn planned_segments(total: u64, n: usize) -> Seq<Segment> {
    if total == 0 || n <= 1 {
        seq![Segment { start: 0, end: (if total == 0 { 0 } else { total - 1 }) as u64, downloaded: 0 }]
    } else {
        Seq::new(n as nat, |i: int| planned_segment(total, n, i))
    }
}

/// The segments lie end to end from byte 0 to byte `total - 1`, each one
/// non-empty: together they cover the file exactly once.
pub open spec fn covers_exactly(segs: Seq<Segment>, total: int) -> bool {
    &&& segs.len() >= 1
    &&& segs[0].start == 0
    &&& segs.last().end == total - 1
    &&& forall|i: int| 0 <= i < segs.len() ==> #[trigger] segs[i].start <= segs[i].end
    &&& forall|i: int| 0 <= i < segs.len() - 1 ==> #[trigger] segs[i + 1].start == segs[i].end + 1
}

/// The sum of the downloaded counts of `segs`.
pub open spec fn sum_downloaded(segs: Seq<Segment>) -> int
    decreases segs.len(),
{
    if segs.len() == 0 {
        0
    } else {
        sum_downloaded(segs.drop_last()) + segs.last().downloaded
    }
}

/// The sum over a prefix never exceeds the sum over the whole.
pub proof fn lemma_sum_downloaded_prefix(segs: Seq<Segment>, i: int)
    requires
        0 <= i <= segs.len(),
    ensures
        sum_downloaded(segs.take(i)) <= sum_downloaded(segs),
        sum_downloaded(segs) >= 0,
    decreases segs.len(),
{
    if segs.len() > 0 {
        if i == segs.len() {
            assert(segs.take(i) =~= segs);
            lemma_sum_downloaded_prefix(segs.drop_last(), i - 1);
        } else {
            assert(segs.drop_last().take(i) =~= segs.take(i));
            lemma_sum_downloaded_prefix(segs.drop_last(), i);
        }
    }
}

/// Facts on the split point `q = total / n` used by `split_segments`.
proof fn lemma_split_bounds(total: u64, n: usize, i: int)
    requires
        n >= 2,
        n <= total,
        0 <= i < n,
    ensures
        total / (n as u64) >= 1,
        i * (total / (n as u64)) <= total,
        (i + 1) * (total / (n as u64)) <= total,
        (n - 1) * (total / (n as u64)) <= total - 1,
        i * (total / (n as u64)) + (total / (n as u64)) == (i + 1) * (total / (n as u64)),
{
    let q = total / (n as u64);
    let t = total as int;
    let m = n as int;
    assert(t == m * (q as int) + t % m) by (nonlinear_arith)
        requires m > 0, q == t / m;
    assert(0 <= t % m < m) by (nonlinear_arith)
        requires m > 0;
    assert(q >= 1) by (nonlinear_arith)
        requires t == m * (q as int) + t % m, t % m < m, m <= t, q >= 0;
    assert((i + 1) * q <= m * q) by (nonlinear_arith)
        requires i + 1 <= m, q >= 0;
    assert(i * q <= (i + 1) * q) by (nonlinear_arith)
        requires i >= 0, q >= 0;
    assert((m - 1) * q <= t - 1) by (nonlinear_arith)
        requires t == m * q + t % m, t % m >= 0, q >= 1;
    assert(i * q + q == (i + 1) * q) by (nonlinear_arith);
}

/// Splitting a non-empty file into `n` segments, `n` at most its size, covers
/// it exactly, with `max(n, 1)` segments.
pub proof fn lemma_split_covers_file(total: u64, n: usize)
    requires
        total > 0,
        n <= total,
    ensures
        covers_exactly(planned_segments(total, n), total as int),
        planned_segments(total, n).len() == if n <= 1 { 1 } else { n as int },
{
    let segs = planned_segments(total, n);
    if n >= 2 {
        let q = total / (n as u64);
        lemma_split_bounds(total, n, 0);
        lemma_split_bounds(total, n, (n - 1) as int);
        assert forall|i: int| 0 <= i < segs.len() implies #[trigger] segs[i].start <= segs[i].end by {
            lemma_split_bounds(total, n, i);
        }
        assert forall|i: int| 0 <= i < segs.len() - 1 implies #[trigger] segs[i + 1].start
            == segs[i].end + 1 by {
            lemma_split_bounds(total, n, i);
            lemma_split_bounds(total, n, i + 1);
        }
    }
}

/// A download: its source, target file and segments.
pub struct DownloadTask {
    pub id: Uuid,
    pub url: String,
    pub filename: String,
    pub file_path: PathBuf,
    pub total_size: u64,
    pub segments: Vec<Segment>,
}

impl DownloadTask {
    /// A task with a fresh random id, size 0 and no segments.
    pub fn new(url: String, filename: String, file_path: PathBuf) -> (r: Self)
        ensures
            r.url == url,
            r.filename == filename,
            r.file_path == file_path,
            r.total_size == 0,
            r.segments@ == Seq::<Segment>::empty(),
    {
        DownloadTask {
            id: new_uuid(),
            url,
            filename,
            file_path,
            total_size: 0,
            segments: Vec::new(),
        }
    }

    /// The number of segments for a file of `file_size` bytes.
    pub fn segment_count_for_size(file_size: u64) -> (r: usize)
        ensures
            r == segment_count_spec(file_size),
    {
        if file_size < 1024 * 1024 {
            1
        } else if file_size < 10 * 1024 * 1024 {
            4
        } else if file_size < 100 * 1024 * 1024 {
            8
        } else {
            16
        }
    }

    /// Replaces the segments by a split of the file into `n` ranges.
    pub fn split_segments(&mut self, n: usize)
        requires
            old(self).total_size == 0 || n <= 1 || n <= old(self).total_size,
        ensures
            final(self).id == old(self).id,
            final(self).url == old(self).url,
            final(self).filename == old(self).filename,
            final(self).file_path == old(self).file_path,
            final(self).total_size == old(self).total_size,
            final(self).segments@ == planned_segments(old(self).total_size, n),
            old(self).total_size > 0 ==> covers_exactly(
                final(self).segments@,
                old(self).total_size as int,
            ),
    {
        let total = self.total_size;
        if total == 0 || n <= 1 {
            let mut one: Vec<Segment> = Vec::new();
            one.push(Segment::new(0, total.saturating_sub(1)));
            self.segments = one;
            proof {
                assert(self.segments@ =~= planned_segments(total, n));
            }
            return;
        }
        let seg_size = total / (n as u64);
        let ghost plan = planned_segments(total, n);
        let mut segs: Vec<Segment> = Vec::new();
        let mut i: usize = 0;
        while i < n
            invariant
                2 <= n <= total,
                seg_size == total / (n as u64),
                plan == planned_segments(total, n),
                i <= n,
                segs@ =~= plan.take(i as int),
            decreases n - i,
        {
            proof {
                lemma_split_bounds(total, n, i as int);
            }
            let start = (i as u64) * seg_size;
            let end = if i == n - 1 {
                total - 1
            } else {
                (i as u64 + 1) * seg_size - 1
            };
            segs.push(Segment::new(start, end));
            i += 1;
        }
        self.segments = segs;
        proof {
            assert(plan.take(n as int) =~= plan);
            lemma_split_covers_file(total, n);
        }
    }

    /// Whether every segment is fully downloaded. The segments are checked in
    /// order, up to the first one that is not done.
    pub fn is_done(&self) -> (r: bool)
        requires
            forall|i: int| 0 <= i < self.segments@.len() && (forall|j: int| 0 <= j < i ==> #[trigger] self.segments@[j].downloaded >= self.segments@[j].byte_len())
                ==> #[trigger] self.segments@[i].byte_len() <= u64::MAX,
        ensures
            r == forall|i: int| 0 <= i < self.segments@.len() ==> #[trigger] self.segments@[i].downloaded >= self.segments@[i].byte_len(),
    {
        let mut i: usize = 0;
        while i < self.segments.len()
            invariant
                i <= self.segments@.len(),
                forall|k: int| 0 <= k < self.segments@.len() && (forall|j: int| 0 <= j < k ==> #[trigger] self.segments@[j].downloaded >= self.segments@[j].byte_len())
                    ==> #[trigger] self.segments@[k].byte_len() <= u64::MAX,
                forall|k: int| 0 <= k < i ==> #[trigger] self.segments@[k].downloaded >= self.segments@[k].byte_len(),
            decreases self.segments@.len() - i,
        {
            if !self.segments[i].is_done() {
                return false;
            }
            i += 1;
        }
        true
    }

    /// The bytes downloaded over all segments, or `None` when the sum does
    /// not fit in a `u64`.
    pub fn downloaded_total(&self) -> (r: Option<u64>)
        ensures
            match r {
                Some(t) => t == sum_downloaded(self.segments@),
                None => sum_downloaded(self.segments@) > u64::MAX,
            },
    {
        let mut acc: u64 = 0;
        let mut i: usize = 0;
        while i < self.segments.len()
            invariant
                i <= self.segments@.len(),
                acc == sum_downloaded(self.segments@.take(i as int)),
            decreases self.segments@.len() - i,
        {
            proof {
                assert(self.segments@.take(i + 1).drop_last() =~= self.segments@.take(i as int));
            }
            match acc.checked_add(self.segments[i].downloaded) {
                Some(s) => {
                    acc = s;
                },
                None => {
                    proof {
                        lemma_sum_downloaded_prefix(self.segments@, i + 1);
                    }
                    return None;
                },
            }
            i += 1;
        }
        proof {
            assert(self.segments@.take(i as int) =~= self.segments@);
        }
        Some(acc)
    }
}

} // verus!
