//! Frames and the decision engine that turns each sample into an operation.
use vstd::prelude::*;
use vstd::string::StringSliceAdditionalSpecFns;

verus! {

/// The mathematical value of a frame.
pub struct FrameView {
    pub name: Seq<char>,
    pub start: u64,
    pub end: u64,
}

/// A contiguous period during which one application held focus.
#[derive(Debug)]
pub struct Frame {
    pub name: String,
    pub start: u64,
    pub end: u64,
}

impl View for Frame {
    type V = FrameView;

    open spec fn view(&self) -> FrameView {
        FrameView { name: self.name@, start: self.start, end: self.end }
    }
}

impl Frame {
    /// A frame never ends before it starts.
    pub open spec fn wf(&self) -> bool {
        self.start <= self.end
    }
}

/// What the logger does with one sample.
pub enum FrameOperation {
    /// Track a fresh single-sample frame; nothing is written.
    Prepare(Frame),
    /// Append the frame as a complete new record.
    WriteNew(Frame),
    /// Overwrite the end timestamp of the last record with this value.
    UpdatePrevious(u64),
}

/// The mathematical value of an operation.
pub enum OperationView {
    Prepare(FrameView),
    WriteNew(FrameView),
    UpdatePrevious(u64),
}

impl View for FrameOperation {
    type V = OperationView;

    open spec fn view(&self) -> OperationView {
        match self {
            FrameOperation::Prepare(f) => OperationView::Prepare(f@),
            FrameOperation::WriteNew(f) => OperationView::WriteNew(f@),
            FrameOperation::UpdatePrevious(t) => OperationView::UpdatePrevious(*t),
        }
    }
}

/// A single unconfirmed sample of `name` at `now`.
pub open spec fn single_sample(name: Seq<char>, now: u64) -> FrameView {
    FrameView { name, start: now, end: now }
}

/// The widest gap between confirming samples that still counts as continuous use.
pub open spec fn tolerance(interval: u64) -> int {
    5 * interval
}

/// Timestamps of one application never run backwards.
pub open spec fn sample_in_order(last: Option<FrameView>, name: Seq<char>, now: u64) -> bool {
    match last {
        Some(f) => f.name == name ==> f.end <= now,
        None => true,
    }
}

/// The operation that a sample of `name` at `now` calls for after `last`.
pub open spec fn decision(last: Option<FrameView>, name: Seq<char>, now: u64, interval: u64) -> OperationView {
    match last {
        Some(f) => if f.name != name || now - f.end >= tolerance(interval) {
            OperationView::Prepare(single_sample(name, now))
        } else if f.end == f.start {
            OperationView::WriteNew(FrameView { name, start: f.start, end: now })
        } else {
            OperationView::UpdatePrevious(now)
        },
        None => OperationView::Prepare(single_sample(name, now)),
    }
}

/// The value of an optional frame.
pub open spec fn opt_view(last: &Option<Frame>) -> Option<FrameView> {
    match last {
        Some(f) => Some(f@),
        None => None,
    }
}

/// Two texts are equal exactly when their UTF-8 encodings are.
pub fn same_text(a: &str, b: &str) -> (r: bool)
    ensures
        r == (a@ == b@),
{
    let x = a.as_bytes();
    let y = b.as_bytes();
    proof {
        vstd::utf8::encode_utf8_decode_utf8(a@);
        vstd::utf8::encode_utf8_decode_utf8(b@);
    }
    if x.len() != y.len() {
        assert(x@ != y@);
        return false;
    }
    let mut i: usize = 0;
    while i < x.len()
        invariant
            x@ == a.spec_bytes(),
            y@ == b.spec_bytes(),
            x@.len() == y@.len(),
            i <= x@.len(),
            forall|k: int| 0 <= k < i ==> x@[k] == y@[k],
        decreases x@.len() - i,
    {
        if x[i] != y[i] {
            assert(x@[i as int] != y@[i as int]);
            return false;
        }
        i = i + 1;
    }
    assert(x@ =~= y@);
    true
}

/// Decides what a sample of the application `name`, taken at `now` with the
/// sampling period `interval`, does to the frame that was open before it.
pub fn decide(last_frame: &Option<Frame>, name: &str, now: u64, interval: u64) -> (op: FrameOperation)
    requires
        sample_in_order(opt_view(last_frame), name@, now),
    ensures
        op@ == decision(opt_view(last_frame), name@, now, interval),
        match op {
            FrameOperation::Prepare(f) => f.wf(),
            FrameOperation::WriteNew(f) => f.wf(),
            FrameOperation::UpdatePrevious(_) => true,
        },
{
    if let Some(last) = last_frame {
        if same_text(last.name.as_str(), name) {
            let gap = now - last.end;
            if gap / 5 < interval {
                assert(gap < 5 * interval) by (nonlinear_arith)
                    requires gap / 5 < interval;
                if last.end == last.start {
                    return FrameOperation::WriteNew(Frame { name: name.to_owned(), start: last.start, end: now });
                }
                return FrameOperation::UpdatePrevious(now);
            }
            assert(gap >= 5 * interval) by (nonlinear_arith)
                requires gap / 5 >= interval;
        }
    }
    FrameOperation::Prepare(Frame { name: name.to_owned(), start: now, end: now })
}

} // verus!
