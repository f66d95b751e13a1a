//! The day log: records `name;start;end\n`, appended whole or corrected by
//! rewriting the trailing end timestamp of the last record in place.
use vstd::prelude::*;
use vstd::utf8::encode_utf8;
use crate::frame::{Frame, FrameView};

verus! {

/// Field separator of a record.
pub const DELIM: u8 = 59;

/// Terminator of a record.
pub const NEWLINE: u8 = 10;

/// The decimal digits of `n`, most significant first, in ASCII.
pub open spec fn decimal(n: nat) -> Seq<u8>
    decreases n,
{
    if n < 10 {
        seq![(48 + n) as u8]
    } else {
        decimal(n / 10) + seq![(48 + n % 10) as u8]
    }
}

/// The end-timestamp field of a record together with its terminator.
pub open spec fn end_suffix(t: u64) -> Seq<u8> {
    decimal(t as nat) + seq![NEWLINE]
}

/// The part of a record that precedes its end timestamp.
pub open spec fn record_head(f: FrameView) -> Seq<u8> {
    encode_utf8(f.name) + seq![DELIM] + decimal(f.start as nat) + seq![DELIM]
}

/// The bytes of one complete record.
pub open spec fn record_bytes(f: FrameView) -> Seq<u8> {
    record_head(f) + end_suffix(f.end)
}

/// The bytes of a log holding `records` in order.
pub open spec fn log_bytes(records: Seq<FrameView>) -> Seq<u8>
    decreases records.len(),
{
    if records.len() == 0 {
        Seq::empty()
    } else {
        log_bytes(records.drop_last()) + record_bytes(records.last())
    }
}

/// A change to the end of the log: cut `seek_back` bytes off its end, then
/// write `bytes`. `suffix_len` is the length of the end-timestamp field (with
/// its terminator) at the end of `bytes`.
pub struct LogPatch {
    pub seek_back: usize,
    pub bytes: Vec<u8>,
    pub suffix_len: usize,
}

/// The log `contents` after `p` is applied.
pub open spec fn patched(contents: Seq<u8>, p: LogPatch) -> Seq<u8> {
    contents.subrange(0, contents.len() - p.seek_back) + p.bytes@
}

/// Appends the decimal digits of `n` to `out`.
pub fn push_decimal(n: u64, out: &mut Vec<u8>)
    ensures
        final(out)@ == old(out)@ + decimal(n as nat),
    decreases n,
{
    if n >= 10 {
        push_decimal(n / 10, out);
    }
    out.push((48 + n % 10) as u8);
    assert(final(out)@ =~= old(out)@ + decimal(n as nat));
}

/// The end-timestamp field of a record for `t`, with its terminator.
pub fn timestamp_suffix(t: u64) -> (r: Vec<u8>)
    ensures
        r@ == end_suffix(t),
{
    let mut r: Vec<u8> = Vec::new();
    push_decimal(t, &mut r);
    r.push(NEWLINE);
    assert(r@ =~= end_suffix(t));
    r
}

/// The patch that appends `frame` as a complete new record.
pub fn write_new(frame: &Frame) -> (p: LogPatch)
    ensures
        p.seek_back == 0,
        p.bytes@ == record_bytes(frame@),
        p.suffix_len == end_suffix(frame.end).len(),
{
    let mut bytes = vstd::slice::slice_to_vec(frame.name.as_str().as_bytes());
    bytes.push(DELIM);
    push_decimal(frame.start, &mut bytes);
    bytes.push(DELIM);
    let mut suffix = timestamp_suffix(frame.end);
    let suffix_len = suffix.len();
    bytes.append(&mut suffix);
    assert(bytes@ =~= record_bytes(frame@));
    LogPatch { seek_back: 0, bytes, suffix_len }
}

/// The patch that overwrites the last record's end timestamp, whose field was
/// `last_write_length` bytes long, with `new_end`.
pub fn update_previous(last_write_length: usize, new_end: u64) -> (p: LogPatch)
    ensures
        p.seek_back == last_write_length,
        p.bytes@ == end_suffix(new_end),
        p.suffix_len == end_suffix(new_end).len(),
{
    let bytes = timestamp_suffix(new_end);
    let suffix_len = bytes.len();
    LogPatch { seek_back: last_write_length, bytes, suffix_len }
}

impl LogPatch {
    /// Applies the patch to an in-memory copy of the log.
    pub fn apply_to(&self, contents: &mut Vec<u8>)
        requires
            self.seek_back <= old(contents)@.len(),
        ensures
            final(contents)@ == patched(old(contents)@, *self),
    {
        let keep = contents.len() - self.seek_back;
        contents.truncate(keep);
        let mut i: usize = 0;
        while i < self.bytes.len()
            invariant
                keep <= old(contents)@.len(),
                i <= self.bytes@.len(),
                contents@ == old(contents)@.subrange(0, keep as int) + self.bytes@.subrange(0, i as int),
            decreases self.bytes@.len() - i,
        {
            contents.push(self.bytes[i]);
            i = i + 1;
            assert(contents@ =~= old(contents)@.subrange(0, keep as int) + self.bytes@.subrange(0, i as int));
        }
        assert(self.bytes@.subrange(0, i as int) =~= self.bytes@);
    }
}

} // verus!
