//! Sliding-window speed meter over cumulative byte counts.
//!
//! Times are nanoseconds on a monotonic clock chosen by the caller.
use vstd::prelude::*;

verus! {

/// The window below which a measured span is too short to give a speed:
/// 0.1 s.
pub const MIN_SPAN_NS: u64 = 100_000_000;

/// The samples left after dropping, from the front, every sample whose
/// successor is older than `cutoff`, as long as more than two remain.
pub open spec fn pruned(s: Seq<(u64, u64)>, cutoff: int) -> Seq<(u64, u64)>
    decreases s.len(),
{
    if s.len() > 2 && s[1].0 < cutoff {
        pruned(s.drop_first(), cutoff)
    } else {
        s
    }
}

/// The cumulative totals never decrease along the samples.
pub open spec fn totals_ordered(s: Seq<(u64, u64)>) -> bool {
    forall|i: int, j: int| 0 <= i <= j < s.len() ==> #[trigger] s[i].1 <= #[trigger] s[j].1
}

/// The cumulative byte count of the newest sample (0 with no samples).
pub open spec fn last_total(s: Seq<(u64, u64)>) -> int {
    if s.len() == 0 {
        0
    } else {
        s.last().1 as int
    }
}

/// What a speed query reports: `None` with fewer than two samples or when
/// the oldest and newest are under 0.1 s apart; otherwise the time between
/// them (0 if the clock went back) and the bytes received in between.
pub open spec fn window_of(s: Seq<(u64, u64)>) -> Option<(u64, u64)> {
    if s.len() < 2 {
        None
    } else {
        let span = if s.last().0 >= s[0].0 { (s.last().0 - s[0].0) as u64 } else { 0u64 };
        if span < MIN_SPAN_NS {
            None
        } else {
            Some((span, (s.last().1 - s[0].1) as u64))
        }
    }
}

/// Pruning drops only a prefix and keeps at least the newest two samples:
/// the result is a suffix of the input, as long as the input when that has
/// at most two samples, and the newest sample stays.
pub proof fn lemma_pruned_suffix(s: Seq<(u64, u64)>, cutoff: int)
    ensures
        pruned(s, cutoff).len() <= s.len(),
        pruned(s, cutoff) =~= s.skip(s.len() - pruned(s, cutoff).len()),
        s.len() <= 2 ==> pruned(s, cutoff) == s,
        s.len() > 2 ==> pruned(s, cutoff).len() >= 2,
        pruned(s, cutoff).len() > 2 ==> pruned(s, cutoff)[1].0 >= cutoff,
    decreases s.len(),
{
    if s.len() > 2 && s[1].0 < cutoff {
        lemma_pruned_suffix(s.drop_first(), cutoff);
        assert(s.drop_first().skip(s.drop_first().len() - pruned(s, cutoff).len())
            =~= s.skip(s.len() - pruned(s, cutoff).len()));
    } else {
        assert(s.skip(0) =~= s);
    }
}

/// The bytes of a series of records `(time, bytes)`.
pub open spec fn sum_bytes(events: Seq<(u64, u64)>) -> int
    decreases events.len(),
{
    if events.len() == 0 {
        0
    } else {
        sum_bytes(events.drop_last()) + events.last().1
    }
}

/// The samples a meter with the given window holds after starting empty and
/// taking the records `(time, bytes)` in order, each `record(time, bytes)`.
pub open spec fn recorded(window: u64, events: Seq<(u64, u64)>) -> Seq<(u64, u64)>
    decreases events.len(),
{
    if events.len() == 0 {
        Seq::<(u64, u64)>::empty()
    } else {
        let prev = recorded(window, events.drop_last());
        let e = events.last();
        pruned(prev.push((e.0, (last_total(prev) + e.1) as u64)), e.0 - window)
    }
}

/// One more record extends the series: the meter's `record(time, bytes)` on
/// the samples of `events` gives the samples of `events` followed by it.
pub proof fn lemma_recorded_step(window: u64, events: Seq<(u64, u64)>, e: (u64, u64))
    ensures
        recorded(window, events.push(e)) == pruned(
            recorded(window, events).push((e.0, (last_total(recorded(window, events)) + e.1) as u64)),
            e.0 - window,
        ),
{
    assert(events.push(e).drop_last() =~= events);
}

/// While no record is older than the window, the meter keeps every record
/// with its running total.
proof fn lemma_recorded_all(window: u64, events: Seq<(u64, u64)>, now: u64)
    requires
        forall|i: int, j: int| 0 <= i <= j < events.len() ==> #[trigger] events[i].0 <= #[trigger] events[j].0,
        forall|i: int| 0 <= i < events.len() ==> #[trigger] events[i].0 >= now - window && events[i].0 <= now,
        sum_bytes(events) <= u64::MAX,
    ensures
        recorded(window, events).len() == events.len(),
        forall|i: int| 0 <= i < events.len() ==> #[trigger] recorded(window, events)[i] == (
            events[i].0,
            sum_bytes(events.take(i + 1)) as u64,
        ),
        last_total(recorded(window, events)) == sum_bytes(events),
    decreases events.len(),
{
    if events.len() > 0 {
        let init = events.drop_last();
        lemma_sum_bytes_nonneg(init);
        lemma_recorded_all(window, init, now);
        let prev = recorded(window, init);
        let e = events.last();
        let pushed = prev.push((e.0, (last_total(prev) + e.1) as u64));
        if pushed.len() > 2 {
            assert(pushed[1] == prev[1]);
            assert(events[1].0 >= now - window);
        }
        assert(recorded(window, events) == pushed);
        assert forall|i: int| 0 <= i < events.len() implies #[trigger] recorded(window, events)[i] == (
            events[i].0,
            sum_bytes(events.take(i + 1)) as u64,
        ) by {
            if i < events.len() - 1 {
                assert(init.take(i + 1) =~= events.take(i + 1));
                assert(init[i] == events[i]);
            } else {
                assert(events.take(i + 1) =~= events);
            }
        }
    }
}

proof fn lemma_first_le_sum(events: Seq<(u64, u64)>)
    requires
        events.len() > 0,
    ensures
        events[0].1 <= sum_bytes(events),
    decreases events.len(),
{
    lemma_sum_bytes_nonneg(events);
    if events.len() > 1 {
        lemma_first_le_sum(events.drop_last());
        assert(events.drop_last()[0] == events[0]);
    } else {
        assert(events.drop_last() =~= Seq::<(u64, u64)>::empty());
    }
}

proof fn lemma_sum_bytes_nonneg(events: Seq<(u64, u64)>)
    ensures
        sum_bytes(events) >= 0,
        events.len() > 0 ==> sum_bytes(events.drop_last()) <= sum_bytes(events),
    decreases events.len(),
{
    if events.len() > 0 {
        lemma_sum_bytes_nonneg(events.drop_last());
    }
}

/// The speed over a series of records: after records `(t_1, b_1)`, ...,
/// `(t_k, b_k)` made in time order, all within the window of the query time
/// `now`, a speed query reports nothing when `k < 2` or `t_k - t_1` is under
/// 0.1 s, and otherwise the span `t_k - t_1` and the bytes `b_2 + ... + b_k`.
pub proof fn lemma_speed_over_records(window: u64, events: Seq<(u64, u64)>, now: u64)
    requires
        forall|i: int, j: int| 0 <= i <= j < events.len() ==> #[trigger] events[i].0 <= #[trigger] events[j].0,
        forall|i: int| 0 <= i < events.len() ==> #[trigger] events[i].0 >= now - window && events[i].0 <= now,
        sum_bytes(events) <= u64::MAX,
    ensures
        pruned(recorded(window, events), now - window) == recorded(window, events),
        window_of(recorded(window, events)) == if events.len() < 2 || events.last().0 - events[0].0 < MIN_SPAN_NS {
            None
        } else {
            Some(((events.last().0 - events[0].0) as u64, (sum_bytes(events) - events[0].1) as u64))
        },
{
    lemma_recorded_all(window, events, now);
    let s = recorded(window, events);
    if s.len() > 2 {
        assert(s[1].0 == events[1].0);
    }
    if events.len() >= 2 {
        let k = events.len() - 1;
        assert(s[0] == (events[0].0, sum_bytes(events.take(1)) as u64));
        assert(events.take(1).drop_last() =~= Seq::<(u64, u64)>::empty());
        assert(events.take(1).last() == events[0]);
        assert(sum_bytes(Seq::<(u64, u64)>::empty()) == 0);
        assert(sum_bytes(events.take(1)) == events[0].1);
        assert(s.last().1 == sum_bytes(events));
        assert(events[0].1 <= sum_bytes(events)) by {
            lemma_first_le_sum(events);
        }
        assert(s.last() == s[k]);
        assert(events.take(k + 1) =~= events);
        assert(events.last() == events[k]);
    }
}

/// Speed meter: cumulative byte counts with their times, of which only the
/// span of the recent window is kept.
pub struct SpeedMeter {
    samples: Vec<(u64, u64)>,
    window: u64,
}

impl SpeedMeter {
    #[verifier::type_invariant]
    spec fn inv(self) -> bool {
        totals_ordered(self.samples@)
    }

    /// The samples: (time, cumulative bytes), oldest first.
    pub closed spec fn samples(&self) -> Seq<(u64, u64)> {
        self.samples@
    }

    /// The window length in nanoseconds.
    pub closed spec fn window_ns(&self) -> u64 {
        self.window
    }

    /// A meter with no samples and the given window.
    pub fn new(window_ns: u64) -> (r: Self)
        ensures
            r.samples() == Seq::<(u64, u64)>::empty(),
            r.window_ns() == window_ns,
    {
        SpeedMeter { samples: Vec::new(), window: window_ns }
    }

    /// The cumulative byte count recorded so far.
    pub fn total(&self) -> (r: u64)
        ensures
            r == last_total(self.samples()),
    {
        if self.samples.len() == 0 {
            0
        } else {
            self.samples[self.samples.len() - 1].1
        }
    }

    /// Drops the samples that fell out of the window ending at `now`.
    fn prune(&mut self, now: u64)
        ensures
            final(self).samples() == pruned(old(self).samples(), now - old(self).window_ns()),
            final(self).window_ns() == old(self).window_ns(),
    {
        proof {
            use_type_invariant(&*self);
        }
        let ghost cutoff = now - self.window;
        let ghost orig = self.samples@;
        while self.samples.len() > 2 && now >= self.window && self.samples[1].0 < now - self.window
            invariant
                cutoff == now - self.window,
                pruned(orig, cutoff) == pruned(self.samples@, cutoff),
                totals_ordered(self.samples@),
            decreases self.samples@.len(),
        {
            let ghost before = self.samples@;
            let mut s = Vec::new();
            std::mem::swap(&mut s, &mut self.samples);
            s.remove(0);
            proof {
                assert(s@ =~= before.drop_first());
                assert forall|i: int, j: int| 0 <= i <= j < s@.len() implies #[trigger] s@[i].1
                    <= #[trigger] s@[j].1 by {
                    assert(s@[i] == before[i + 1]);
                    assert(s@[j] == before[j + 1]);
                }
            }
            self.samples = s;
        }
    }

    /// Records `bytes` newly received at time `now`: appends the new
    /// cumulative count, then drops the samples that fell out of the window.
    pub fn record(&mut self, now: u64, bytes: u64)
        requires
            last_total(old(self).samples()) + bytes <= u64::MAX,
        ensures
            final(self).samples() == pruned(
                old(self).samples().push((now, (last_total(old(self).samples()) + bytes) as u64)),
                now - old(self).window_ns(),
            ),
            final(self).window_ns() == old(self).window_ns(),
            last_total(final(self).samples()) == last_total(old(self).samples()) + bytes,
    {
        proof {
            use_type_invariant(&*self);
        }
        let total = self.total() + bytes;
        let ghost before = self.samples@;
        let mut s = Vec::new();
        std::mem::swap(&mut s, &mut self.samples);
        s.push((now, total));
        proof {
            assert forall|i: int, j: int| 0 <= i <= j < s@.len() implies #[trigger] s@[i].1
                <= #[trigger] s@[j].1 by {
                if j == s@.len() - 1 && i < j {
                    assert(before[i].1 <= before.last().1);
                }
            }
        }
        self.samples = s;
        self.prune(now);
        proof {
            let pushed = before.push((now, total));
            lemma_pruned_suffix(pushed, now - self.window);
            let p = pruned(pushed, now - self.window);
            assert(p.last() == pushed.last());
        }
    }

    /// Drops the samples that fell out of the window ending at `now`, then
    /// reports the span between the oldest and newest remaining samples and
    /// the bytes received over it.
    pub fn speed_window(&mut self, now: u64) -> (r: Option<(u64, u64)>)
        ensures
            final(self).samples() == pruned(old(self).samples(), now - old(self).window_ns()),
            final(self).window_ns() == old(self).window_ns(),
            r == window_of(final(self).samples()),
    {
        self.prune(now);
        proof {
            use_type_invariant(&*self);
        }
        let n = self.samples.len();
        if n < 2 {
            return None;
        }
        let first = self.samples[0];
        let last = self.samples[n - 1];
        let span = last.0.saturating_sub(first.0);
        if span < MIN_SPAN_NS {
            return None;
        }
        proof {
            assert(self.samples@[0].1 <= self.samples@[n - 1].1);
        }
        Some((span, last.1 - first.1))
    }
}

} // verus!
