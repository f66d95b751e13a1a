//! Properties of the logger over whole runs of samples.
use vstd::prelude::*;
use crate::frame::{decision, sample_in_order, single_sample, tolerance, FrameView};
use crate::record::{decimal, end_suffix, log_bytes, patched, record_bytes, LogPatch};
use crate::tracker::{fresh, forget, lemma_rewrite_end, state_wf, step, StateView};

verus! {

/// The state after samples of `name` at each of `times`, in order.
pub open spec fn run(s: StateView, name: Seq<char>, times: Seq<u64>, interval: u64) -> StateView
    decreases times.len(),
{
    if times.len() == 0 {
        s
    } else {
        step(run(s, name, times.drop_last(), interval), name, times.last(), interval)
    }
}

/// Sample times rise strictly.
pub open spec fn increasing(times: Seq<u64>) -> bool {
    forall|i: int| 0 < i < times.len() ==> #[trigger] times[i - 1] < times[i]
}

/// Consecutive sample times lie within the tolerance window.
pub open spec fn within_tolerance(times: Seq<u64>, interval: u64) -> bool {
    forall|i: int| 0 < i < times.len() ==> #[trigger] times[i] - times[i - 1] < tolerance(interval)
}

/// A run of samples of one application that start a fresh frame and follow
/// each other within the tolerance window leaves exactly one record, from
/// the first sample's time to the last one's (none while only one sample
/// was taken).
pub proof fn lemma_continuous_run(s: StateView, name: Seq<char>, times: Seq<u64>, interval: u64)
    requires
        state_wf(s),
        times.len() >= 1,
        increasing(times),
        within_tolerance(times, interval),
        sample_in_order(s.last, name, times[0]),
        decision(s.last, name, times[0], interval) is Prepare,
    ensures
        ({
            let r = run(s, name, times, interval);
            let f = FrameView { name, start: times[0], end: times.last() };
            &&& state_wf(r)
            &&& r.date == s.date
            &&& r.last == Some(f)
            &&& times.len() == 1 ==> r.written == s.written
            &&& times.len() >= 2 ==> r.written == s.written.push(f)
            &&& times.len() >= 2 ==> log_bytes(r.written) == log_bytes(s.written) + record_bytes(f)
            &&& times.len() == 1 ==> log_bytes(r.written) == log_bytes(s.written)
        }),
    decreases times.len(),
{
    let prev = times.drop_last();
    if times.len() == 1 {
        assert(prev.len() == 0);
        assert(run(s, name, prev, interval) == s);
    } else {
        assert forall|i: int| 0 < i < prev.len() implies #[trigger] prev[i - 1] < prev[i] by {
            assert(times[i - 1] < times[i]);
        }
        assert forall|i: int| 0 < i < prev.len() implies #[trigger] prev[i] - prev[i - 1] < tolerance(interval) by {
            assert(times[i] - times[i - 1] < tolerance(interval));
        }
        lemma_continuous_run(s, name, prev, interval);
        let n = times.len() - 1;
        assert(times[n - 1] < times[n]);
        assert(times[n] - times[n - 1] < tolerance(interval));
        if prev.len() >= 2 {
            assert(times[0] < times[n - 1]) by {
                lemma_increasing_bound(times, n - 1);
            }
            let g = FrameView { name, start: times[0], end: times.last() };
            let w = s.written.push(FrameView { name, start: times[0], end: prev.last() });
            assert(w.update(w.len() - 1, g) =~= s.written.push(g));
        }
        let f = FrameView { name, start: times[0], end: times.last() };
        assert(s.written.push(f).drop_last() =~= s.written);
    }
}

proof fn lemma_increasing_bound(times: Seq<u64>, k: int)
    requires
        increasing(times),
        0 < k < times.len(),
    ensures
        times[0] < times[k],
    decreases k,
{
    assert(times[k - 1] < times[k]);
    if k > 1 {
        lemma_increasing_bound(times, k - 1);
    }
}

proof fn lemma_run_append(s: StateView, name: Seq<char>, a: Seq<u64>, b: Seq<u64>, interval: u64)
    ensures
        run(s, name, a + b, interval) == run(run(s, name, a, interval), name, b, interval),
    decreases b.len(),
{
    if b.len() == 0 {
        assert(a + b =~= a);
    } else {
        assert((a + b).drop_last() =~= a + b.drop_last());
        lemma_run_append(s, name, a, b.drop_last(), interval);
    }
}

/// A gap wider than the tolerance window splits a run of one application
/// into separate records: the samples before the gap keep their record
/// (none for a single sample), which ends before the gap, and those after
/// it start a record of their own at the first sample after the gap.
pub proof fn lemma_gap_splits_run(
    s: StateView,
    name: Seq<char>,
    before: Seq<u64>,
    after: Seq<u64>,
    interval: u64,
)
    requires
        state_wf(s),
        before.len() >= 1,
        after.len() >= 1,
        increasing(before),
        increasing(after),
        within_tolerance(before, interval),
        within_tolerance(after, interval),
        before.last() <= after[0],
        after[0] - before.last() >= tolerance(interval),
        sample_in_order(s.last, name, before[0]),
        decision(s.last, name, before[0], interval) is Prepare,
    ensures
        ({
            let r = run(s, name, before + after, interval);
            let first = FrameView { name, start: before[0], end: before.last() };
            let second = FrameView { name, start: after[0], end: after.last() };
            let kept = if before.len() >= 2 { s.written.push(first) } else { s.written };
            &&& r.last == Some(second)
            &&& after.len() == 1 ==> r.written == kept
            &&& after.len() >= 2 ==> r.written == kept.push(second)
        }),
{
    lemma_run_append(s, name, before, after, interval);
    lemma_continuous_run(s, name, before, interval);
    if before.len() >= 2 {
        lemma_increasing_bound(before, before.len() - 1);
    }
    lemma_continuous_run(run(s, name, before, interval), name, after, interval);
}

/// Rewriting the end field of the last record twice, with rising end
/// values, leaves exactly the log with that record's end set to the second
/// value: no record is added and no stale bytes remain. The record's length
/// changes only by the change in the number of digits of its end.
pub proof fn lemma_update_twice(records: Seq<FrameView>, t1: u64, t2: u64, p1: LogPatch, p2: LogPatch)
    requires
        records.len() > 0,
        records.last().end <= t1 <= t2,
        p1.seek_back == end_suffix(records.last().end).len(),
        p1.bytes@ == end_suffix(t1),
        p1.suffix_len == end_suffix(t1).len(),
        p2.seek_back == p1.suffix_len,
        p2.bytes@ == end_suffix(t2),
    ensures
        ({
            let f = records.last();
            let g = FrameView { end: t2, ..f };
            let log = log_bytes(records);
            &&& p1.seek_back <= log.len()
            &&& p2.seek_back <= patched(log, p1).len()
            &&& patched(patched(log, p1), p2) == log_bytes(records.update(records.len() - 1, g))
            &&& records.update(records.len() - 1, g).len() == records.len()
            &&& record_bytes(g).len() == record_bytes(f).len() - decimal(f.end as nat).len()
                + decimal(t2 as nat).len()
        }),
{
    let f = records.last();
    let n = records.len() - 1;
    lemma_rewrite_end(records, t1);
    let r1 = records.update(n, FrameView { end: t1, ..f });
    assert(r1.last() == FrameView { end: t1, ..f });
    lemma_rewrite_end(r1, t2);
    assert(r1.update(n, FrameView { end: t2, ..f }) =~= records.update(n, FrameView { end: t2, ..f }));
}

/// A cycle without an observation writes nothing, and the next sample
/// starts a fresh frame even when it names the application that was open
/// before.
pub proof fn lemma_ignored_sample_resets(s: StateView, name: Seq<char>, now: u64, interval: u64)
    requires
        state_wf(s),
    ensures
        forget(s).written == s.written,
        state_wf(forget(s)),
        step(forget(s), name, now, interval) == (StateView { last: Some(single_sample(name, now)), ..s }),
{
}

/// After a rollover the first sample starts a fresh frame on the new day's
/// log, whatever was open before midnight.
pub proof fn lemma_rollover_starts_fresh(today: i32, name: Seq<char>, now: u64, interval: u64)
    ensures
        state_wf(fresh(today)),
        step(fresh(today), name, now, interval) == (StateView {
            last: Some(single_sample(name, now)),
            ..fresh(today)
        }),
        step(fresh(today), name, now, interval).written.len() == 0,
{
}

} // verus!
