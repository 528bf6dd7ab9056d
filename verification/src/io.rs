//! Byte sources over data in memory: a per-node size cap for the document
//! stream, and independent cursors over one shared buffer.

use vstd::prelude::*;
use vstd::slice::SliceAdditionalExecFns;

use crate::text::string_from_chars;

verus! {

/// The kind of an I/O failure.
#[derive(Debug, Clone, Copy, PartialEq, Eq, Structural)]
pub enum IoErrorKind {
    InvalidData,
    InvalidInput,
    UnexpectedEof,
    Other,
}

/// An I/O failure: its kind and message.
#[derive(Debug, Clone, PartialEq, Eq)]
pub struct IoError {
    kind: IoErrorKind,
    message: String,
}

impl IoError {
    pub closed spec fn spec_kind(&self) -> IoErrorKind {
        self.kind
    }

    pub closed spec fn text(&self) -> Seq<char> {
        self.message@
    }

    pub fn new(kind: IoErrorKind, message: String) -> (e: IoError)
        ensures
            e.spec_kind() == kind,
            e.text() == message@,
    {
        IoError { kind, message }
    }

    pub fn kind(&self) -> (k: IoErrorKind)
        ensures
            k == self.spec_kind(),
    {
        self.kind
    }

    /// The error's message.
    pub fn to_string(&self) -> (s: String)
        ensures
            s@ == self.text(),
    {
        self.message.clone()
    }
}

#[verifier::external_type_specification]
#[verifier::external_body]
pub struct ExStdIoError(std::io::Error);

/// The library's error for a `std::io::Error`: its kind, sorted into the
/// kinds the library tells apart, and its message.
///
/// Trusted: reads `std::io::Error::kind` and the error's `Display`; nothing
/// is claimed about either.
#[verifier::external_body]
pub(crate) fn io_error_of(e: std::io::Error) -> IoError {
    let kind = match e.kind() {
        std::io::ErrorKind::InvalidData => IoErrorKind::InvalidData,
        std::io::ErrorKind::InvalidInput => IoErrorKind::InvalidInput,
        std::io::ErrorKind::UnexpectedEof => IoErrorKind::UnexpectedEof,
        _ => IoErrorKind::Other,
    };
    IoError { kind, message: e.to_string() }
}

/// The error a deflate stream gives when decoding stops making progress.
pub fn no_progress_error() -> (e: IoError)
    ensures
        e.spec_kind() == IoErrorKind::InvalidData,
        e.text() == "deflate decoder made no progress"@,
{
    IoError::new(IoErrorKind::InvalidData, String::from_str("deflate decoder made no progress"))
}

/// An invalid-data error with the given message.
pub fn invalid_data(message: String) -> (e: IoError)
    ensures
        e.spec_kind() == IoErrorKind::InvalidData,
        e.text() == message@,
{
    IoError::new(IoErrorKind::InvalidData, message)
}

/// `base + offset`, or an invalid-input error when that is negative or does
/// not fit in a `u64`.
pub fn checked_offset(base: u64, offset: i64) -> (r: Result<u64, IoError>)
    ensures
        0 <= base + offset <= u64::MAX ==> r == Ok::<u64, IoError>((base + offset) as u64),
        !(0 <= base + offset <= u64::MAX) ==> (r matches Err(e) && e.spec_kind() == IoErrorKind::InvalidInput
            && e.text() == "invalid seek"@),
{
    if offset >= 0 {
        let o = offset as u64;
        if base <= u64::MAX - o {
            return Ok(base + o);
        }
    } else {
        let o: u64 = if offset == i64::MIN { 0x8000_0000_0000_0000u64 } else { (-offset) as u64 };
        if o <= base {
            return Ok(base - o);
        }
    }
    Err(IoError::new(IoErrorKind::InvalidInput, String::from_str("invalid seek")))
}

/// The largest number of bytes one XML node of the document part may take.
pub const MAX_XML_NODE_BYTES: u64 = 67108864;

/// The message of the error for a node over the size limit.
pub const NODE_LIMIT_MESSAGE: &'static str = "document.xml node exceeds the size limit (possible zip bomb)";

/// A byte source that fails once more than `limit` bytes are read within the
/// current window; the window is reset before each node, so the limit applies
/// per node.
pub struct NodeCappedReader {
    data: Vec<u8>,
    pos: usize,
    read_in_window: u64,
    limit: u64,
}

impl NodeCappedReader {
    pub closed spec fn remaining(&self) -> Seq<u8> {
        self.data@.subrange(self.pos as int, self.data@.len() as int)
    }

    pub closed spec fn window(&self) -> u64 {
        self.read_in_window
    }

    pub closed spec fn cap(&self) -> u64 {
        self.limit
    }

    pub closed spec fn wf(&self) -> bool {
        self.pos <= self.data@.len()
    }

    pub fn new(inner: Vec<u8>, limit: u64) -> (r: NodeCappedReader)
        ensures
            r.wf(),
            r.remaining() == inner@,
            r.window() == 0,
            r.cap() == limit,
    {
        let r = NodeCappedReader { data: inner, pos: 0, read_in_window: 0, limit };
        assert(r.data@.subrange(0, r.data@.len() as int) =~= r.data@);
        r
    }

    /// Starts a new window.
    pub fn reset_window(&mut self)
        ensures
            final(self).window() == 0,
            final(self).remaining() == old(self).remaining(),
            final(self).cap() == old(self).cap(),
            final(self).wf() == old(self).wf(),
    {
        self.read_in_window = 0;
    }

    /// Reads up to `buf.len()` bytes into `buf`. The bytes count against the
    /// window; when it goes over the limit the read fails with invalid data
    /// (the bytes are consumed all the same).
    pub fn read(&mut self, buf: &mut [u8]) -> (r: Result<usize, IoError>)
        requires
            old(self).wf(),
        ensures
            final(self).wf(),
            final(self).cap() == old(self).cap(),
            ({
                let n = if old(buf)@.len() < old(self).remaining().len() { old(buf)@.len() } else { old(self).remaining().len() };
                let w = old(self).window() + n;
                &&& final(self).remaining() == old(self).remaining().subrange(n as int, old(self).remaining().len() as int)
                &&& final(buf)@.subrange(0, n as int) == old(self).remaining().subrange(0, n as int)
                &&& final(buf)@.len() == old(buf)@.len()
                &&& final(self).window() == (if w > u64::MAX { u64::MAX } else { w as u64 })
                &&& (final(self).window() > old(self).cap() ==> (r matches Err(e) && e.spec_kind() == IoErrorKind::InvalidData
                        && e.text() == NODE_LIMIT_MESSAGE@))
                &&& (final(self).window() <= old(self).cap() ==> r == Ok::<usize, IoError>(n as usize))
            }),
    {
        let rem = self.data.len() - self.pos;
        let n: usize = if buf.len() < rem { buf.len() } else { rem };
        let ghost r0 = self.data@.subrange(self.pos as int, self.data@.len() as int);
        let ghost b0 = buf@;
        let mut i: usize = 0;
        while i < n
            invariant
                n <= buf@.len(),
                self.pos + n <= self.data.len(),
                i <= n,
                buf@.len() == b0.len(),
                forall|j: int| 0 <= j < i ==> buf@[j] == self.data@[self.pos + j],
            decreases n - i,
        {
            let b = self.data[self.pos + i];
            buf.set(i, b);
            i = i + 1;
        }
        self.pos = self.pos + n;
        assert(buf@.subrange(0, n as int) =~= r0.subrange(0, n as int));
        assert(self.data@.subrange(self.pos as int, self.data@.len() as int) =~= r0.subrange(n as int, r0.len() as int));
        self.read_in_window = self.read_in_window.saturating_add(n as u64);
        if self.read_in_window > self.limit {
            return Err(IoError::new(IoErrorKind::InvalidData, String::from_str(NODE_LIMIT_MESSAGE)));
        }
        Ok(n)
    }

    /// Reads to the end of the source, appending to `out`; returns the
    /// number of bytes read, or the first error.
    pub fn read_to_end(&mut self, out: &mut Vec<u8>) -> (r: Result<usize, IoError>)
        requires
            old(self).wf(),
        ensures
            final(self).wf(),
            final(self).cap() == old(self).cap(),
            r is Ok ==> final(out)@ == old(out)@ + old(self).remaining() && r->Ok_0 == old(self).remaining().len(),
            r matches Err(e) ==> e.spec_kind() == IoErrorKind::InvalidData && e.text() == NODE_LIMIT_MESSAGE@
                && final(self).window() > final(self).cap(),
            old(self).window() + old(self).remaining().len() <= old(self).cap() ==> r is Ok
                && final(self).window() == old(self).window() + old(self).remaining().len(),
    {
        let ghost start = self.remaining();
        let data_len = self.data.len();
        assert(start.len() <= data_len);
        let ghost out0 = out@;
        let mut total: usize = 0;
        let mut chunk: [u8; 64] = [0u8; 64];
        loop
            invariant
                self.wf(),
                self.cap() == old(self).cap(),
                out0 == old(out)@,
                start == old(self).remaining(),
                start.len() <= usize::MAX,
                out@ == out0 + start.subrange(0, total as int),
                total <= start.len(),
                self.remaining() == start.subrange(total as int, start.len() as int),
                old(self).window() + start.len() <= old(self).cap() ==> self.window() == old(self).window() + total,
                chunk@.len() == 64,
            decreases self.remaining().len(),
        {
            let ghost before = self.remaining();
            let n = self.read(&mut chunk)?;
            if n == 0 {
                assert(before.len() == 0);
                assert(total == start.len());
                assert(start.subrange(0, total as int) =~= start);
                return Ok(total);
            }
            assert(chunk@.subrange(0, n as int) == start.subrange(total as int, total + n));
            let mut k: usize = 0;
            let ghost o1 = out@;
            while k < n
                invariant
                    k <= n,
                    n <= chunk@.len(),
                    out@ == o1 + chunk@.subrange(0, k as int),
                decreases n - k,
            {
                out.push(chunk[k]);
                k = k + 1;
                assert(out@ =~= o1 + chunk@.subrange(0, k as int));
            }
            assert(start.subrange(0, total + n) =~= start.subrange(0, total as int) + start.subrange(total as int, total + n));
            total = total + n;
        }
    }
}

/// Where a seek moves a cursor: from the start, from the current position,
/// or from the end.
#[derive(Debug, Clone, Copy, PartialEq, Eq)]
pub enum SeekFrom {
    Start(u64),
    End(i64),
    Current(i64),
}

/// One source of bytes that any number of cursors read independently.
pub struct SharedReader {
    data: Vec<u8>,
}

/// A cursor over a [`SharedReader`], with its own position.
pub struct SharedCursor<'a> {
    data: &'a Vec<u8>,
    position: u64,
}

impl SharedReader {
    pub closed spec fn bytes(&self) -> Seq<u8> {
        self.data@
    }

    pub fn new(data: Vec<u8>) -> (r: SharedReader)
        ensures
            r.bytes() == data@,
    {
        SharedReader { data }
    }

    /// A new cursor at position 0.
    pub fn cursor(&self) -> (c: SharedCursor<'_>)
        ensures
            c.pos() == 0,
            c.bytes() == self.bytes(),
    {
        SharedCursor { data: &self.data, position: 0 }
    }
}

impl<'a> SharedCursor<'a> {
    pub closed spec fn pos(&self) -> u64 {
        self.position
    }

    pub closed spec fn bytes(&self) -> Seq<u8> {
        self.data@
    }

    /// The cursor's position.
    pub fn stream_position(&self) -> (p: u64)
        ensures
            p == self.pos(),
    {
        self.position
    }

    /// Moves the cursor; a position before the start, or past `u64::MAX`, is
    /// an invalid-input error and leaves it where it was.
    pub fn seek(&mut self, pos: SeekFrom) -> (r: Result<u64, IoError>)
        ensures
            final(self).bytes() == old(self).bytes(),
            ({
                let base: int = match pos {
                    SeekFrom::Start(p) => 0,
                    SeekFrom::Current(o) => old(self).pos() as int,
                    SeekFrom::End(o) => old(self).bytes().len() as int,
                };
                let target: int = match pos {
                    SeekFrom::Start(p) => p as int,
                    SeekFrom::Current(o) => base + o,
                    SeekFrom::End(o) => base + o,
                };
                &&& (0 <= target <= u64::MAX ==> r == Ok::<u64, IoError>(target as u64) && final(self).pos() == target)
                &&& (!(0 <= target <= u64::MAX) ==> (r matches Err(e) && e.spec_kind() == IoErrorKind::InvalidInput
                        && e.text() == "invalid seek"@ && final(self).pos() == old(self).pos()))
            }),
    {
        let next = match pos {
            SeekFrom::Start(p) => p,
            SeekFrom::Current(o) => checked_offset(self.position, o)?,
            SeekFrom::End(o) => checked_offset(self.data.len() as u64, o)?,
        };
        self.position = next;
        Ok(next)
    }

    /// Reads up to `buf.len()` bytes from the cursor's position.
    pub fn read(&mut self, buf: &mut [u8]) -> (r: usize)
        ensures
            final(self).bytes() == old(self).bytes(),
            ({
                let avail: int = if old(self).pos() >= old(self).bytes().len() { 0 } else { old(self).bytes().len() - old(self).pos() };
                let n: int = if old(buf)@.len() < avail { old(buf)@.len() as int } else { avail };
                &&& r == n
                &&& final(self).pos() == old(self).pos() + n
                &&& final(buf)@.len() == old(buf)@.len()
                &&& (n > 0 ==> final(buf)@.subrange(0, n) == old(self).bytes().subrange(old(self).pos() as int, old(self).pos() + n))
            }),
    {
        let len = self.data.len();
        let avail: usize = if (self.position as u128) >= (len as u128) { 0 } else { len - (self.position as usize) };
        let n: usize = if buf.len() < avail { buf.len() } else { avail };
        let start: usize = if n == 0 { 0 } else { self.position as usize };
        let ghost b0 = buf@;
        let mut i: usize = 0;
        while i < n
            invariant
                n <= buf@.len(),
                n > 0 ==> start + n <= self.data@.len() && start == old(self).pos(),
                i <= n,
                buf@.len() == b0.len(),
                self.data == old(self).data,
                forall|j: int| 0 <= j < i ==> buf@[j] == self.data@[start + j],
            decreases n - i,
        {
            assert(start + i < self.data.len());
            let idx: usize = start + i;
            let b = self.data[idx];
            buf.set(i, b);
            i = i + 1;
        }
        if n > 0 {
            assert(buf@.subrange(0, n as int) =~= self.data@.subrange(old(self).pos() as int, old(self).pos() + n));
        }
        self.position = self.position + n as u64;
        n
    }

    /// Fills `buf` from the cursor's position; fewer bytes left than it holds
    /// is an unexpected-end error.
    pub fn read_exact(&mut self, buf: &mut [u8]) -> (r: Result<(), IoError>)
        ensures
            final(self).bytes() == old(self).bytes(),
            r is Ok ==> final(self).pos() == old(self).pos() + old(buf)@.len(),
            r is Ok && old(buf)@.len() > 0 ==> final(buf)@ == old(self).bytes().subrange(old(self).pos() as int, old(self).pos() + old(buf)@.len()),
            r is Ok <==> (old(buf)@.len() == 0 || old(self).pos() + old(buf)@.len() <= old(self).bytes().len()),
    {
        let n = self.read(buf);
        if n < buf.len() {
            return Err(IoError::new(IoErrorKind::UnexpectedEof, String::from_str("failed to fill whole buffer")));
        }
        assert(buf@.subrange(0, n as int) =~= buf@);
        Ok(())
    }
}

} // verus!
