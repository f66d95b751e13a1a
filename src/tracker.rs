//! The state that the daemon loop carries from one sample to the next.
use vstd::prelude::*;
use crate::frame::{
    decide, decision, opt_view, same_text, sample_in_order, Frame, FrameOperation,
    FrameView, OperationView,
};
use crate::xprop::{is_ignored_app, should_ignore_app};
use crate::record::{
    end_suffix, log_bytes, patched, record_head, update_previous, write_new,
    LogPatch,
};

verus! {

/// The mathematical value of a `CurrentState`.
pub struct StateView {
    /// The frame processed last, if any.
    pub last: Option<FrameView>,
    /// Length of the end-timestamp field written last.
    pub write_len: nat,
    /// The day (counted from the common era) of the open log file.
    pub date: i32,
    /// The records written to the day's log by this state, in order.
    pub written: Seq<FrameView>,
}

/// The continuity state of the logger for one day's log file.
pub struct CurrentState {
    last_frame: Option<Frame>,
    last_write_length: usize,
    last_date: i32,
    written: Ghost<Seq<FrameView>>,
}

impl View for CurrentState {
    type V = StateView;

    closed spec fn view(&self) -> StateView {
        StateView {
            last: opt_view(&self.last_frame),
            write_len: self.last_write_length as nat,
            date: self.last_date,
            written: self.written@,
        }
    }
}

/// A state is consistent with its log: a confirmed open frame is the last
/// record written, and the recorded field length is that of its end field.
pub open spec fn state_wf(s: StateView) -> bool {
    match s.last {
        Some(f) => f.start <= f.end && (f.start != f.end ==> {
            &&& s.written.len() > 0
            &&& s.written.last() == f
            &&& s.write_len == end_suffix(f.end).len()
        }),
        None => true,
    }
}

/// The state after a sample of `name` at `now`.
pub open spec fn step(s: StateView, name: Seq<char>, now: u64, interval: u64) -> StateView {
    match decision(s.last, name, now, interval) {
        OperationView::Prepare(f) => StateView { last: Some(f), ..s },
        OperationView::WriteNew(f) => StateView {
            last: Some(f),
            write_len: end_suffix(f.end).len(),
            written: s.written.push(f),
            ..s
        },
        OperationView::UpdatePrevious(t) => {
            let f = FrameView { end: t, ..s.last.unwrap() };
            StateView {
                last: Some(f),
                write_len: end_suffix(t).len(),
                written: s.written.update(s.written.len() - 1, f),
                ..s
            }
        },
    }
}

/// The state after a cycle without an observation: continuity is lost.
pub open spec fn forget(s: StateView) -> StateView {
    StateView { last: None, ..s }
}

/// The state of a freshly opened log for day `today`.
pub open spec fn fresh(today: i32) -> StateView {
    StateView { last: None, write_len: 0, date: today, written: Seq::empty() }
}

/// Rewriting the end field of the last record gives the log with that
/// record's end replaced.
pub proof fn lemma_rewrite_end(records: Seq<FrameView>, t: u64)
    requires
        records.len() > 0,
    ensures
        ({
            let f = records.last();
            let g = FrameView { end: t, ..f };
            let old_log = log_bytes(records);
            let cut = end_suffix(f.end).len();
            &&& cut <= old_log.len()
            &&& old_log.subrange(0, old_log.len() - cut) + end_suffix(t)
                == log_bytes(records.update(records.len() - 1, g))
        }),
{
    let f = records.last();
    let g = FrameView { end: t, ..f };
    let updated = records.update(records.len() - 1, g);
    assert(updated.drop_last() =~= records.drop_last());
    assert(updated.last() == g);
    let head = log_bytes(records.drop_last()) + record_head(f);
    assert(log_bytes(records) =~= head + end_suffix(f.end));
    assert((head + end_suffix(f.end)).subrange(0, head.len() as int) =~= head);
    assert(record_head(g) == record_head(f));
    assert(log_bytes(updated) =~= head + end_suffix(t));
}

impl CurrentState {
    /// The state of a freshly opened log for day `today`.
    pub fn new(today: i32) -> (s: Self)
        ensures
            s@ == fresh(today),
            state_wf(s@),
    {
        CurrentState { last_frame: None, last_write_length: 0, last_date: today, written: Ghost(Seq::empty()) }
    }

    /// The frame processed last, if any.
    pub fn last_frame(&self) -> (r: &Option<Frame>)
        ensures
            opt_view(r) == self@.last,
    {
        &self.last_frame
    }

    /// Length of the end-timestamp field written last.
    pub fn last_write_length(&self) -> (r: usize)
        ensures
            r as nat == self@.write_len,
    {
        self.last_write_length
    }

    /// The day of the open log file.
    pub fn last_date(&self) -> (r: i32)
        ensures
            r == self@.date,
    {
        self.last_date
    }

    /// Whether the calendar day has moved on since the log was opened.
    pub fn needs_rollover(&self, today: i32) -> (r: bool)
        ensures
            r == (self@.date != today),
    {
        self.last_date != today
    }

    /// Records a cycle without an observation (a failed sample or an
    /// ignored application): the next sample starts a fresh frame.
    pub fn forget_frame(&mut self)
        requires
            state_wf(old(self)@),
        ensures
            final(self)@ == forget(old(self)@),
            state_wf(final(self)@),
    {
        self.last_frame = None;
    }

    /// Takes a sample of the application `name` at `now` and returns the
    /// change to the day's log that it calls for, if any.
    pub fn observe(&mut self, name: &str, now: u64, interval: u64) -> (p: Option<LogPatch>)
        requires
            state_wf(old(self)@),
            sample_in_order(old(self)@.last, name@, now),
        ensures
            final(self)@ == step(old(self)@, name@, now, interval),
            state_wf(final(self)@),
            p is None <==> decision(old(self)@.last, name@, now, interval) is Prepare,
            p matches Some(p) ==> {
                &&& p.seek_back <= log_bytes(old(self)@.written).len()
                &&& patched(log_bytes(old(self)@.written), p) == log_bytes(final(self)@.written)
                &&& p.suffix_len == final(self)@.write_len
            },
    {
        let op = decide(&self.last_frame, name, now, interval);
        match op {
            FrameOperation::Prepare(frame) => {
                self.last_frame = Some(frame);
                None
            },
            FrameOperation::WriteNew(frame) => {
                let p = write_new(&frame);
                proof {
                    let old_log = log_bytes(self.written@);
                    let new_written = self.written@.push(frame@);
                    assert(new_written.drop_last() =~= self.written@);
                    assert(old_log.subrange(0, old_log.len() as int) =~= old_log);
                }
                self.last_write_length = p.suffix_len;
                self.written = Ghost(self.written@.push(frame@));
                self.last_frame = Some(frame);
                Some(p)
            },
            FrameOperation::UpdatePrevious(t) => {
                let last = self.last_frame.as_ref().unwrap();
                let frame = Frame { name: last.name.clone(), start: last.start, end: t };
                let p = update_previous(self.last_write_length, t);
                proof {
                    lemma_rewrite_end(self.written@, t);
                }
                self.last_write_length = p.suffix_len;
                self.written = Ghost(self.written@.update(self.written@.len() - 1, frame@));
                self.last_frame = Some(frame);
                Some(p)
            },
        }
    }

    /// Handles one cycle's sample: `None` when the sampler failed, else the
    /// focused application. A failed or ignored sample forgets the open
    /// frame and writes nothing; so does a sample of the open application
    /// taken before that frame's end (the clock was set back), which then
    /// starts a fresh frame. Any other sample is observed.
    pub fn handle_sample(&mut self, app: Option<&str>, now: u64, interval: u64) -> (p: Option<LogPatch>)
        requires
            state_wf(old(self)@),
        ensures
            state_wf(final(self)@),
            match app {
                None => final(self)@ == forget(old(self)@) && p is None,
                Some(name) => if is_ignored_app(name@) {
                    final(self)@ == forget(old(self)@) && p is None
                } else if !sample_in_order(old(self)@.last, name@, now) {
                    final(self)@ == step(forget(old(self)@), name@, now, interval) && p is None
                } else {
                    &&& final(self)@ == step(old(self)@, name@, now, interval)
                    &&& p is None <==> decision(old(self)@.last, name@, now, interval) is Prepare
                    &&& p matches Some(p) ==> {
                        &&& p.seek_back <= log_bytes(old(self)@.written).len()
                        &&& patched(log_bytes(old(self)@.written), p) == log_bytes(final(self)@.written)
                        &&& p.suffix_len == final(self)@.write_len
                    }
                },
            },
    {
        match app {
            None => {
                self.forget_frame();
                None
            },
            Some(name) => {
                if should_ignore_app(name) {
                    self.forget_frame();
                    return None;
                }
                let out_of_order = match &self.last_frame {
                    Some(f) => same_text(f.name.as_str(), name) && f.end > now,
                    None => false,
                };
                if out_of_order {
                    self.forget_frame();
                }
                self.observe(name, now, interval)
            },
        }
    }
}

} // verus!
