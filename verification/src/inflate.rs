//! A raw DEFLATE reader over the compressed bytes of a ZIP entry that
//! reports a corrupt stream, a truncated stream and a decoder that makes no
//! progress as errors instead of looping or ending early.

use vstd::prelude::*;
use vstd::slice::SliceAdditionalExecFns;

use crate::io::{no_progress_error, IoError, IoErrorKind};

verus! {

/// How many compressed bytes are handed to the decoder at a time.
pub const INPUT_CAPACITY: usize = 32768;

#[verifier::external_type_specification]
#[verifier::external_body]
pub struct ExDecompress(flate2::Decompress);

/// What one decoder step reports.
#[derive(Debug, Clone, Copy, PartialEq, Eq, Structural)]
pub enum InflateStatus {
    /// Progress was made, or more input or output room is needed.
    Progress,
    /// No progress was possible.
    BufError,
    /// The end of the stream was reached.
    StreamEnd,
}

/// Whether a decoder step may end the stream.
#[derive(Debug, Clone, Copy, PartialEq, Eq, Structural)]
pub enum InflateFlush {
    /// More input may follow.
    More,
    /// No more input follows.
    Finish,
}

/// The compressed bytes a decoder has consumed, in order.
pub uninterp spec fn decoder_consumed(d: flate2::Decompress) -> Seq<u8>;

/// The bytes a decoder has produced, in order.
pub uninterp spec fn decoder_produced(d: flate2::Decompress) -> Seq<u8>;

/// What the raw DEFLATE stream that begins with `stream` decodes to as far
/// as those bytes determine it: the decoded bytes up to the end of its last
/// block, the first error, or the end of `stream`, whichever comes first.
pub uninterp spec fn inflated_prefix(stream: Seq<u8>) -> Seq<u8>;

/// A raw (header-less) DEFLATE decoder.
///
/// Trusted: wraps `flate2::Decompress::new(false)`; the contract claims that
/// a new decoder has consumed and produced nothing.
#[verifier::external_body]
fn raw_decoder() -> (d: flate2::Decompress)
    ensures
        decoder_consumed(d) == Seq::<u8>::empty(),
        decoder_produced(d) == Seq::<u8>::empty(),
{
    flate2::Decompress::new(false)
}

/// The number of compressed bytes the decoder has consumed so far.
///
/// Trusted: wraps `Decompress::total_in`, the running sum of the bytes each
/// step consumed; the contract claims it is their number while that fits.
#[verifier::external_body]
fn decoder_total_in(d: &flate2::Decompress) -> (r: u64)
    ensures
        decoder_consumed(*d).len() <= u64::MAX ==> r == decoder_consumed(*d).len(),
{
    d.total_in()
}

/// The number of bytes the decoder has produced so far.
///
/// Trusted: wraps `Decompress::total_out`, the running sum of the bytes each
/// step wrote; the contract claims it is their number while that fits.
#[verifier::external_body]
fn decoder_total_out(d: &flate2::Decompress) -> (r: u64)
    ensures
        decoder_produced(*d).len() <= u64::MAX ==> r == decoder_produced(*d).len(),
{
    d.total_out()
}

/// Runs the decoder on `input`, writing into `output`.
///
/// Trusted: wraps `Decompress::decompress`; its status is sorted by variant
/// and its error reduced to a unit. The contract claims, whatever the
/// outcome, that the step consumes a prefix of `input` and writes what it
/// produces at the start of `output` (which keeps its length); that what a
/// decoder has produced is always a prefix of what the bytes it consumed
/// decode to, which more bytes only extend; and that the end of the stream
/// is reported only once all of that has been produced.
#[verifier::external_body]
fn decoder_step(d: &mut flate2::Decompress, input: &[u8], output: &mut [u8], flush: InflateFlush) -> (r: Result<InflateStatus, ()>)
    ensures
        final(output)@.len() == old(output)@.len(),
        decoder_consumed(*final(d)).len() <= decoder_consumed(*old(d)).len() + input@.len(),
        decoder_consumed(*final(d)) == decoder_consumed(*old(d)) + input@.take(
            decoder_consumed(*final(d)).len() - decoder_consumed(*old(d)).len()),
        decoder_produced(*final(d)).len() <= decoder_produced(*old(d)).len() + old(output)@.len(),
        decoder_produced(*final(d)) == decoder_produced(*old(d)) + final(output)@.take(
            decoder_produced(*final(d)).len() - decoder_produced(*old(d)).len()),
        decoder_produced(*final(d)).is_prefix_of(inflated_prefix(decoder_consumed(*final(d)))),
        inflated_prefix(decoder_consumed(*old(d))).is_prefix_of(inflated_prefix(decoder_consumed(*final(d)))),
        r == Ok::<InflateStatus, ()>(InflateStatus::StreamEnd) ==> decoder_produced(*final(d)) == inflated_prefix(decoder_consumed(*final(d))),
{
    let f = match flush {
        InflateFlush::More => flate2::FlushDecompress::None,
        InflateFlush::Finish => flate2::FlushDecompress::Finish,
    };
    match d.decompress(input, output, f) {
        Ok(flate2::Status::Ok) => Ok(InflateStatus::Progress),
        Ok(flate2::Status::BufError) => Ok(InflateStatus::BufError),
        Ok(flate2::Status::StreamEnd) => Ok(InflateStatus::StreamEnd),
        Err(_) => Err(()),
    }
}

/// Reads the DEFLATE stream held in `source`, decoding it into the caller's
/// buffers.
pub struct DeflateReader {
    source: Vec<u8>,
    source_pos: usize,
    decoder: flate2::Decompress,
    input: Vec<u8>,
    input_start: usize,
    input_end: usize,
    finished: bool,
    /// Whether no decoder step has failed, so that what the decoder
    /// consumed is exactly the source up to the unread input.
    in_sync: Ghost<bool>,
}

fn other_error(message: &str) -> (e: IoError)
    ensures
        e.spec_kind() == IoErrorKind::Other,
        e.text() == message@,
{
    IoError::new(IoErrorKind::Other, String::from_str(message))
}

impl DeflateReader {
    /// The reader's invariant: the input buffer holds `INPUT_CAPACITY`
    /// bytes, its filled part lies within it, and the source position lies
    /// within the source.
    pub closed spec fn wf(&self) -> bool {
        &&& self.input@.len() == INPUT_CAPACITY
        &&& self.input_end <= INPUT_CAPACITY
        &&& self.source_pos <= self.source@.len()
        &&& self.in_sync@ ==> {
            &&& self.input_start <= self.input_end <= self.source_pos
            &&& self.input@.subrange(0, self.input_end as int)
                == self.source@.subrange(self.source_pos - self.input_end, self.source_pos as int)
            &&& decoder_consumed(self.decoder)
                == self.source@.take(self.source_pos - self.input_end + self.input_start)
            &&& decoder_produced(self.decoder).is_prefix_of(inflated_prefix(decoder_consumed(self.decoder)))
            &&& self.finished ==> decoder_produced(self.decoder) == inflated_prefix(decoder_consumed(self.decoder))
        }
    }

    /// The compressed bytes the decoder has consumed.
    pub closed spec fn consumed(&self) -> Seq<u8> {
        decoder_consumed(self.decoder)
    }

    /// The bytes the decoder has produced, all handed out by reads.
    pub closed spec fn produced(&self) -> Seq<u8> {
        decoder_produced(self.decoder)
    }

    /// Whether no decoder step has failed.
    pub closed spec fn in_sync(&self) -> bool {
        self.in_sync@
    }

    /// The compressed stream.
    pub closed spec fn compressed(&self) -> Seq<u8> {
        self.source@
    }

    /// How many compressed bytes have been handed to the decoder.
    pub closed spec fn handed_over(&self) -> nat {
        self.source_pos as nat
    }

    /// Whether the end of the stream has been reached.
    pub closed spec fn is_finished(&self) -> bool {
        self.finished
    }

    /// A reader over the compressed bytes `source`.
    pub fn new(source: Vec<u8>) -> (r: DeflateReader)
        ensures
            r.wf(),
            r.compressed() == source@,
            r.handed_over() == 0,
            !r.is_finished(),
            r.in_sync(),
            r.consumed() == Seq::<u8>::empty(),
            r.produced() == Seq::<u8>::empty(),
    {
        let r = DeflateReader {
            source,
            source_pos: 0,
            decoder: raw_decoder(),
            input: vec![0u8; INPUT_CAPACITY],
            input_start: 0,
            input_end: 0,
            finished: false,
            in_sync: Ghost(true),
        };
        assert(r.source@.take(0) =~= Seq::<u8>::empty());
        assert(r.input@.subrange(0, 0) =~= r.source@.subrange(0, 0));
        r
    }

    /// The number of compressed bytes the decoder has consumed.
    pub fn total_in(&self) -> (r: u64)
        requires
            self.wf(),
        ensures
            self.consumed().len() <= u64::MAX ==> r == self.consumed().len(),
            self.in_sync() ==> r == self.consumed().len(),
    {
        decoder_total_in(&self.decoder)
    }

    /// Moves the next bytes of the source into the input buffer; whether
    /// there were any.
    fn refill(&mut self) -> (r: bool)
        requires
            old(self).wf(),
            old(self).in_sync@ ==> old(self).input_start == old(self).input_end,
        ensures
            final(self).wf(),
            final(self).source@ == old(self).source@,
            final(self).finished == old(self).finished,
            final(self).input_start == 0,
            r == (final(self).input_end > 0),
            r == (old(self).source_pos < old(self).source@.len()),
            final(self).source_pos == old(self).source_pos + final(self).input_end,
            final(self).decoder == old(self).decoder,
            final(self).in_sync == old(self).in_sync,
            old(self).in_sync@ && old(self).input_start == old(self).input_end ==> final(self).in_sync@,
    {
        let rem: usize = self.source.len() - self.source_pos;
        let count: usize = if rem < INPUT_CAPACITY { rem } else { INPUT_CAPACITY };
        let mut i: usize = 0;
        while i < count
            invariant
                count <= INPUT_CAPACITY,
                self.input@.len() == INPUT_CAPACITY,
                self.source_pos + count <= self.source.len(),
                self.source@ == old(self).source@,
                self.source_pos == old(self).source_pos,
                self.finished == old(self).finished,
                count == (if rem < INPUT_CAPACITY { rem } else { INPUT_CAPACITY }),
                rem == old(self).source@.len() - old(self).source_pos,
                i <= count,
                self.decoder == old(self).decoder,
                self.in_sync == old(self).in_sync,
                self.input_start == old(self).input_start,
                self.input_end == old(self).input_end,
                self.input@.subrange(0, i as int) == self.source@.subrange(self.source_pos as int, self.source_pos + i),
            decreases count - i,
        {
            let b = self.source[self.source_pos + i];
            self.input.set(i, b);
            i = i + 1;
            assert(self.input@.subrange(0, i as int) =~= self.source@.subrange(self.source_pos as int, self.source_pos + i));
        }
        self.source_pos = self.source_pos + count;
        self.input_start = 0;
        self.input_end = count;
        count != 0
    }

    /// One decoder step over the pending input: the number of bytes
    /// produced and the status. A consumption beyond the input buffer or
    /// the `usize` range is an error.
    fn decode(&mut self, output: &mut [u8], flush: InflateFlush) -> (r: Result<(usize, InflateStatus), IoError>)
        requires
            old(self).wf(),
            !old(self).finished,
        ensures
            final(self).wf(),
            final(self).source@ == old(self).source@,
            final(self).source_pos == old(self).source_pos,
            final(self).input_end == old(self).input_end,
            final(self).finished == old(self).finished,
            final(output)@.len() == old(output)@.len(),
            old(self).input_start > old(self).input_end ==> r is Err,
            r is Ok ==> final(self).input_start >= old(self).input_start,
            r matches Ok((p, s)) ==> p <= old(output)@.len(),
            r matches Err(e) ==> e.spec_kind() == IoErrorKind::Other
                || (e.spec_kind() == IoErrorKind::InvalidData && e.text() == "corrupt deflate stream"@),
            r is Ok ==> final(self).in_sync@ == old(self).in_sync@,
            r is Ok ==> decoder_produced(old(self).decoder).is_prefix_of(decoder_produced(final(self).decoder)),
            r matches Ok((p, s)) ==> (decoder_produced(final(self).decoder).len() <= u64::MAX
                ==> decoder_produced(final(self).decoder) == decoder_produced(old(self).decoder) + final(output)@.take(p as int)),
            r matches Ok((_, s)) ==> (s == InflateStatus::StreamEnd && final(self).in_sync@
                ==> decoder_produced(final(self).decoder) == inflated_prefix(decoder_consumed(final(self).decoder))),
    {
        if self.input_start > self.input_end {
            self.in_sync = Ghost(false);
            return Err(other_error("invalid deflate input range"));
        }
        let input = vstd::slice::slice_subrange(self.input.as_slice(), self.input_start, self.input_end);
        let ghost c0 = decoder_consumed(self.decoder);
        let ghost o0 = decoder_produced(self.decoder);
        let before_in = decoder_total_in(&self.decoder);
        let before_out = decoder_total_out(&self.decoder);
        let status = match decoder_step(&mut self.decoder, input, output, flush) {
            Ok(s) => s,
            Err(()) => {
                self.in_sync = Ghost(false);
                return Err(IoError::new(IoErrorKind::InvalidData, String::from_str("corrupt deflate stream")));
            },
        };
        let consumed64 = decoder_total_in(&self.decoder).saturating_sub(before_in);
        let produced64 = decoder_total_out(&self.decoder).saturating_sub(before_out);
        if consumed64 > usize::MAX as u64 || produced64 > usize::MAX as u64 {
            self.in_sync = Ghost(false);
            return Err(other_error("deflate count out of range"));
        }
        let consumed = consumed64 as usize;
        let produced = produced64 as usize;
        if produced > output.len() {
            self.in_sync = Ghost(false);
            return Err(other_error("deflate output count out of range"));
        }
        match self.input_start.checked_add(consumed) {
            Some(s) => {
                proof {
                    if self.in_sync@ {
                        let k = decoder_consumed(self.decoder).len() - c0.len();
                        let a = self.source_pos - self.input_end + self.input_start;
                        assert(c0.len() == a);
                        assert(consumed == k);
                        assert(input@ == self.input@.subrange(self.input_start as int, self.input_end as int));
                        assert forall|x: int| 0 <= x < self.input_end - self.input_start implies
                            #[trigger] input@[x] == self.source@[a + x] by {
                            assert(self.input@.subrange(0, self.input_end as int)[self.input_start + x]
                                == self.source@.subrange(self.source_pos - self.input_end, self.source_pos as int)[self.input_start + x]);
                        }
                        assert(decoder_consumed(self.decoder) =~= self.source@.take(a + k));
                    }
                }
                self.input_start = s;
            },
            None => {
                self.in_sync = Ghost(false);
                return Err(other_error("deflate input position overflow"));
            },
        }
        Ok((produced, status))
    }

    /// Reads decoded bytes into `buf`: their number, 0 once the stream has
    /// ended. A corrupt stream is invalid data; a stream whose compressed
    /// bytes run out before its end is an unexpected end; a decoder step
    /// that neither consumes nor produces anything is invalid data.
    pub fn read(&mut self, buf: &mut [u8]) -> (r: Result<usize, IoError>)
        requires
            old(self).wf(),
        ensures
            final(self).wf(),
            final(self).compressed() == old(self).compressed(),
            final(self).handed_over() >= old(self).handed_over(),
            final(buf)@.len() == old(buf)@.len(),
            old(self).is_finished() ==> final(self).is_finished(),
            (old(self).is_finished() || old(buf)@.len() == 0) ==> r == Ok::<usize, IoError>(0) && final(buf)@ == old(buf)@,
            r matches Ok(n) ==> n <= old(buf)@.len(),
            r == Ok::<usize, IoError>(0) && old(buf)@.len() > 0 ==> final(self).is_finished(),
            (r matches Err(e) && e.spec_kind() == IoErrorKind::UnexpectedEof) ==> final(self).handed_over() == final(self).compressed().len(),
            r matches Err(e) ==> e.spec_kind() != IoErrorKind::InvalidInput,
            r matches Err(e) ==> e.spec_kind() == IoErrorKind::Other || e.spec_kind() == IoErrorKind::UnexpectedEof
                || (e.spec_kind() == IoErrorKind::InvalidData && (e.text() == "corrupt deflate stream"@
                    || e.text() == "deflate decoder made no progress"@)),
            old(self).in_sync() && r is Ok ==> final(self).in_sync(),
            final(self).in_sync() ==> final(self).consumed().is_prefix_of(final(self).compressed())
                && final(self).produced().is_prefix_of(inflated_prefix(final(self).consumed())),
            final(self).in_sync() && final(self).is_finished() ==> final(self).produced() == inflated_prefix(final(self).consumed()),
            r matches Ok(n) ==> (final(self).produced().len() <= u64::MAX
                ==> final(self).produced() == old(self).produced() + final(buf)@.take(n as int)),
            (r matches Err(e) && e.spec_kind() == IoErrorKind::UnexpectedEof && final(self).in_sync())
                ==> final(self).consumed() == final(self).compressed(),
    {
        if buf.len() == 0 || self.finished {
            proof {
                if self.in_sync@ {
                    assert(self.source@.take(self.source_pos - self.input_end + self.input_start).is_prefix_of(self.source@));
                }
            }
            assert(buf@.take(0) =~= Seq::<u8>::empty());
            assert(decoder_produced(self.decoder) + Seq::<u8>::empty() =~= decoder_produced(self.decoder));
            return Ok(0);
        }
        loop
            invariant
                self.wf(),
                !self.finished,
                !old(self).finished,
                buf@.len() == old(buf)@.len(),
                buf@.len() > 0,
                self.source@ == old(self).source@,
                self.source_pos >= old(self).source_pos,
                self.in_sync@ == old(self).in_sync@,
                decoder_produced(old(self).decoder).is_prefix_of(decoder_produced(self.decoder)),
                decoder_produced(self.decoder).len() <= u64::MAX ==> decoder_produced(self.decoder) == decoder_produced(old(self).decoder),
            decreases
                (self.source@.len() - self.source_pos) + (if self.input_end >= self.input_start { self.input_end - self.input_start } else { 0 }),
        {
            if self.input_start == self.input_end && !self.refill() {
                let (produced, status) = self.decode(buf, InflateFlush::Finish)?;
                if status == InflateStatus::StreamEnd {
                    self.finished = true;
                    return Ok(produced);
                }
                if produced == 0 {
                    return Err(IoError::new(IoErrorKind::UnexpectedEof, String::from_str("truncated deflate stream")));
                }
                return Ok(produced);
            }
            let before = self.input_start;
            let (produced, status) = self.decode(buf, InflateFlush::More)?;
            if status == InflateStatus::StreamEnd {
                self.finished = true;
                return Ok(produced);
            }
            if produced != 0 {
                return Ok(produced);
            }
            if self.input_start == before {
                return Err(no_progress_error());
            }
        }
    }
}

} // verus!
