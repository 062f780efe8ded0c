//! In-memory seekable byte streams, and the two capabilities that the codecs
//! are written against: yielding bytes in order, and taking bytes at a
//! position.

use vstd::prelude::*;
use vstd::slice::{slice_subrange, slice_to_vec};

verus! {

/// A position to seek to: counted from the start, from the end, or from the
/// current position.
#[derive(Copy, Clone, Debug, PartialEq, Eq, Structural)]
pub enum SeekFrom {
    Start(u64),
    End(i64),
    Current(i64),
}

/// The argument of a seek inside a window that could not be resolved.
#[derive(Copy, Clone, Debug, PartialEq, Eq, Structural)]
pub struct InvalidSeek {
    pub current: u32,
    pub start: u32,
    pub end: u32,
    pub pos: SeekFrom,
}

/// Why an operation on a stream failed.
#[derive(Copy, Clone, Debug, PartialEq, Eq, Structural)]
pub enum IoError {
    /// Fewer bytes were left than an exact read asked for.
    UnexpectedEof,
    /// A seek on an unbounded stream went below zero or past the largest position.
    InvalidInput,
    /// A seek inside a window has no position in that window.
    InvalidSeek(InvalidSeek),
    /// A write would move the position past the largest one the stream can hold.
    Other,
}

/// What `bytes` holds after `buf` was written at `pos`. A gap between the old
/// end and `pos` is filled with zeros.
pub open spec fn written(bytes: Seq<u8>, pos: int, buf: Seq<u8>) -> Seq<u8> {
    Seq::new(
        if bytes.len() >= pos + buf.len() {
            bytes.len()
        } else {
            (pos + buf.len()) as nat
        },
        |i: int|
            if pos <= i < pos + buf.len() {
                buf[i - pos]
            } else if i < bytes.len() {
                bytes[i]
            } else {
                0u8
            },
    )
}

/// Whether `after` holds at `i` what `before` holds there.
pub open spec fn same_at(before: Seq<u8>, after: Seq<u8>, i: int) -> bool {
    i < after.len() && after[i] == before[i]
}

/// Whether `after` holds, before `pos`, what `before` held there.
#[verifier::opaque]
pub open spec fn same_before(before: Seq<u8>, after: Seq<u8>, pos: int) -> bool {
    forall|i: int| 0 <= i < pos && i < before.len() ==> #[trigger] same_at(before, after, i)
}

/// Nothing changes where nothing is written.
pub proof fn same_before_itself(bytes: Seq<u8>, pos: int)
    ensures
        same_before(bytes, bytes, pos),
{
    reveal(same_before);
}

/// Writing at a position changes nothing before it.
pub proof fn written_same_before(bytes: Seq<u8>, pos: int, buf: Seq<u8>)
    requires
        0 <= pos,
    ensures
        same_before(bytes, written(bytes, pos, buf), pos),
{
    reveal(same_before);
}

/// What is kept twice is kept.
pub proof fn same_before_twice(
    first: Seq<u8>,
    second: Seq<u8>,
    third: Seq<u8>,
    pos: int,
    later: int,
)
    requires
        pos <= later,
        same_before(first, second, pos),
        same_before(second, third, later),
    ensures
        same_before(first, third, pos),
{
    reveal(same_before);
    assert forall|i: int| 0 <= i < pos && i < first.len() implies #[trigger] same_at(
        first,
        third,
        i,
    ) by {
        assert(same_at(first, second, i));
        assert(same_at(second, third, i));
    }
}

/// Writing `y` right behind `x` is writing both at once.
pub proof fn written_twice(bytes: Seq<u8>, pos: int, x: Seq<u8>, y: Seq<u8>)
    requires
        0 <= pos,
    ensures
        written(written(bytes, pos, x), pos + x.len(), y) == written(bytes, pos, x + y),
{
    assert(written(written(bytes, pos, x), pos + x.len(), y) =~= written(bytes, pos, x + y));
}

/// Writing at the end is appending.
pub proof fn written_at_end(bytes: Seq<u8>, x: Seq<u8>)
    ensures
        written(bytes, bytes.len() as int, x) == bytes + x,
{
    assert(written(bytes, bytes.len() as int, x) =~= bytes + x);
}

/// Where a seek on an unbounded stream of `len` bytes leads from `pos`, if
/// anywhere.
pub open spec fn seek_target(pos: u64, len: nat, from: SeekFrom) -> Option<u64> {
    let target: int = match from {
        SeekFrom::Start(n) => n as int,
        SeekFrom::End(d) => len + d,
        SeekFrom::Current(d) => pos + d,
    };
    if 0 <= target <= u64::MAX {
        Some(target as u64)
    } else {
        None
    }
}

/// The bytes of `bytes` at the positions from `from` up to `to`, as far as
/// there are any.
pub open spec fn window(bytes: Seq<u8>, from: int, to: int) -> Seq<u8> {
    let end = if to <= bytes.len() {
        to
    } else {
        bytes.len() as int
    };
    if 0 <= from <= end {
        bytes.subrange(from, end)
    } else {
        Seq::empty()
    }
}

/// A source that yields, in order, the bytes of a part of a byte sequence.
pub trait Read: Sized {
    /// All the bytes of the underlying stream.
    spec fn source(&self) -> Seq<u8>;

    /// The position in the stream that the source counts its own positions
    /// from.
    spec fn origin(&self) -> nat;

    /// The position in the stream of the byte that is read next.
    spec fn cursor(&self) -> nat;

    /// The position in the stream from which on nothing is yielded.
    spec fn limit(&self) -> nat;

    /// Takes the next `len` bytes, or all that are left when there are fewer.
    fn read(&mut self, len: usize) -> (bytes: Vec<u8>)
        ensures
            bytes@.len() == if len <= window(
                old(self).source(),
                old(self).cursor() as int,
                old(self).limit() as int,
            ).len() {
                len as nat
            } else {
                window(old(self).source(), old(self).cursor() as int, old(self).limit() as int).len()
            },
            bytes@ == window(
                old(self).source(),
                old(self).cursor() as int,
                old(self).limit() as int,
            ).take(bytes@.len() as int),
            final(self).source() == old(self).source(),
            final(self).origin() == old(self).origin(),
            final(self).limit() == old(self).limit(),
            final(self).cursor() == old(self).cursor() + bytes@.len(),
    ;
}

/// The bytes that `reader` has still to yield.
pub open spec fn remaining<R: Read>(reader: R) -> Seq<u8> {
    window(reader.source(), reader.cursor() as int, reader.limit() as int)
}

/// `after` is `before` moved on by `n` bytes: nothing else differs.
pub open spec fn advanced<R: Read>(before: R, after: R, n: int) -> bool {
    &&& after.source() == before.source()
    &&& after.origin() == before.origin()
    &&& after.limit() == before.limit()
    &&& after.cursor() == before.cursor() + n
}

/// `after` is `before` moved on: nothing else differs, and the position is
/// not before where it was.
pub open spec fn moved_on<R: Read>(before: R, after: R) -> bool {
    &&& after.source() == before.source()
    &&& after.origin() == before.origin()
    &&& after.limit() == before.limit()
    &&& after.cursor() >= before.cursor()
}

/// Once `n` of the remaining bytes are taken, the others remain.
pub proof fn remaining_advanced<R: Read>(before: R, after: R, n: int)
    requires
        advanced(before, after, n),
        0 <= n <= remaining(before).len(),
    ensures
        remaining(after) == remaining(before).skip(n),
{
    assert(remaining(after) =~= remaining(before).skip(n));
}

/// A sink that takes bytes at its position, up to a largest position, and
/// keeps the highest position that it has written up to.
pub trait Write: Sized {
    /// All the bytes of the underlying stream.
    spec fn contents(&self) -> Seq<u8>;

    /// The position in the stream that the sink counts its own positions
    /// from.
    spec fn origin(&self) -> nat;

    /// The position in the stream where the next byte goes.
    spec fn cursor(&self) -> nat;

    /// The highest position that was written up to.
    spec fn mark(&self) -> nat;

    /// The largest position the sink can hold.
    spec fn limit(&self) -> nat;

    /// Writes all of `buf` at the position and moves past it, or fails and
    /// leaves the sink as it was.
    fn write_all(&mut self, buf: &[u8]) -> (r: Result<(), IoError>)
        ensures
            r is Ok <==> old(self).cursor() + buf@.len() <= old(self).limit(),
            r is Ok ==> final(self).contents() == written(
                old(self).contents(),
                old(self).cursor() as int,
                buf@,
            ) && final(self).cursor() == old(self).cursor() + buf@.len() && final(self).mark()
                == if old(self).mark() >= final(self).cursor() {
                old(self).mark()
            } else {
                final(self).cursor()
            },
            r is Err ==> r == Err::<(), IoError>(IoError::Other) && final(self).contents() == old(
                self,
            ).contents() && final(self).cursor() == old(self).cursor() && final(self).mark()
                == old(self).mark(),
            final(self).origin() == old(self).origin(),
            final(self).limit() == old(self).limit(),
    ;
}

/// `after` is `before` with `buf` written at its position: the position is
/// behind `buf`, and the mark is raised to it where it was lower.
pub open spec fn wrote<W: Write>(before: W, after: W, buf: Seq<u8>) -> bool {
    &&& after.contents() == written(before.contents(), before.cursor() as int, buf)
    &&& after.cursor() == before.cursor() + buf.len()
    &&& after.mark() == if before.mark() >= after.cursor() {
        before.mark()
    } else {
        after.cursor()
    }
    &&& after.origin() == before.origin()
    &&& after.limit() == before.limit()
}

/// `after` holds what `before` held, at the same position.
pub open spec fn untouched<W: Write>(before: W, after: W) -> bool {
    &&& after.contents() == before.contents()
    &&& after.cursor() == before.cursor()
    &&& after.mark() == before.mark()
    &&& after.origin() == before.origin()
    &&& after.limit() == before.limit()
}

/// What an attempt to write all of `buf` leaves: it succeeds exactly when
/// the new position is within the limit, and a failure changes nothing.
pub open spec fn write_outcome<W: Write>(before: W, after: W, buf: Seq<u8>, ok: bool) -> bool {
    &&& ok <==> before.cursor() + buf.len() <= before.limit()
    &&& ok ==> wrote(before, after, buf)
    &&& !ok ==> untouched(before, after)
}

/// What an attempt to read exactly `n` bytes leaves: it succeeds exactly
/// when that many remain, and a failure consumes all that remain.
pub open spec fn read_outcome<R: Read>(before: R, after: R, n: nat, ok: bool) -> bool {
    &&& ok <==> n <= remaining(before).len()
    &&& ok ==> advanced(before, after, n as int)
    &&& !ok ==> advanced(before, after, remaining(before).len() as int)
}

/// Takes exactly `len` bytes from `reader`. When fewer are left, all of them
/// are consumed and the read fails.
pub fn read_exact<R: Read>(reader: &mut R, len: usize) -> (r: Result<Vec<u8>, IoError>)
    ensures
        read_outcome(*old(reader), *final(reader), len as nat, r is Ok),
        r matches Ok(bytes) ==> bytes@ == remaining(*old(reader)).take(len as int),
        r matches Err(e) ==> e == IoError::UnexpectedEof,
{
    let bytes = reader.read(len);
    if bytes.len() == len {
        Ok(bytes)
    } else {
        Err(IoError::UnexpectedEof)
    }
}

/// A read position over a borrowed slice of bytes.
#[derive(Copy, Clone, Debug)]
pub struct ByteReader<'a> {
    data: &'a [u8],
    pos: u64,
}

impl<'a> View for ByteReader<'a> {
    type V = Seq<u8>;

    /// All the bytes of the slice, whatever the position.
    closed spec fn view(&self) -> Seq<u8> {
        self.data@
    }
}

impl<'a> ByteReader<'a> {
    pub closed spec fn position(&self) -> u64 {
        self.pos
    }

    /// A reader at the start of `data`.
    pub fn new(data: &'a [u8]) -> (r: ByteReader<'a>)
        ensures
            r@ == data@,
            r.position() == 0,
    {
        ByteReader { data, pos: 0 }
    }

    pub fn stream_position(&self) -> (p: u64)
        ensures
            p == self.position(),
    {
        self.pos
    }

    /// The number of bytes of the slice.
    pub fn len(&self) -> (n: usize)
        ensures
            n == self@.len(),
    {
        self.data.len()
    }

    /// Moves the position. Any position from zero up is allowed, also one
    /// beyond the end.
    pub fn seek(&mut self, from: SeekFrom) -> (r: Result<u64, IoError>)
        ensures
            final(self)@ == old(self)@,
            match seek_target(old(self).position(), old(self)@.len(), from) {
                Some(p) => r == Ok::<u64, IoError>(p) && final(self).position() == p,
                None => r == Err::<u64, IoError>(IoError::InvalidInput) && final(self).position()
                    == old(self).position(),
            },
    {
        let target: i128 = match from {
            SeekFrom::Start(n) => n as i128,
            SeekFrom::End(d) => self.data.len() as i128 + d as i128,
            SeekFrom::Current(d) => self.pos as i128 + d as i128,
        };
        if 0 <= target && target <= u64::MAX as i128 {
            self.pos = target as u64;
            Ok(self.pos)
        } else {
            Err(IoError::InvalidInput)
        }
    }
}

impl<'a> Read for ByteReader<'a> {
    open spec fn source(&self) -> Seq<u8> {
        self@
    }

    open spec fn origin(&self) -> nat {
        0
    }

    open spec fn cursor(&self) -> nat {
        self.position() as nat
    }

    open spec fn limit(&self) -> nat {
        self@.len()
    }

    fn read(&mut self, len: usize) -> (bytes: Vec<u8>)
    {
        let total = self.data.len();
        if self.pos >= total as u64 {
            let bytes = Vec::new();
            assert(bytes@ =~= window(old(self)@, old(self).pos as int, old(self)@.len() as int).take(0));
            return bytes;
        }
        let from = self.pos as usize;
        let n = if len <= total - from {
            len
        } else {
            total - from
        };
        let bytes = slice_to_vec(slice_subrange(self.data, from, from + n));
        self.pos = (from + n) as u64;
        assert(bytes@ =~= window(old(self)@, old(self).pos as int, old(self)@.len() as int).take(
            n as int,
        ));
        bytes
    }
}

/// A growable byte buffer with a write position.
#[derive(Debug)]
pub struct ByteWriter {
    data: Vec<u8>,
    pos: u64,
}

impl View for ByteWriter {
    type V = Seq<u8>;

    closed spec fn view(&self) -> Seq<u8> {
        self.data@
    }
}

impl ByteWriter {
    pub closed spec fn position(&self) -> u64 {
        self.pos
    }

    /// An empty buffer, positioned at zero.
    pub fn new() -> (w: ByteWriter)
        ensures
            w@ == Seq::<u8>::empty(),
            w.position() == 0,
    {
        ByteWriter { data: Vec::new(), pos: 0 }
    }

    /// A buffer that holds `data`, positioned at zero.
    pub fn from_vec(data: Vec<u8>) -> (w: ByteWriter)
        ensures
            w@ == data@,
            w.position() == 0,
    {
        ByteWriter { data, pos: 0 }
    }

    /// Gives up the buffer.
    pub fn into_inner(self) -> (v: Vec<u8>)
        ensures
            v@ == self@,
    {
        self.data
    }

    pub fn stream_position(&self) -> (p: u64)
        ensures
            p == self.position(),
    {
        self.pos
    }

    /// Moves the position. Any position from zero up is allowed, also one
    /// beyond the end: a later write fills the gap with zeros.
    pub fn seek(&mut self, from: SeekFrom) -> (r: Result<u64, IoError>)
        ensures
            final(self)@ == old(self)@,
            match seek_target(old(self).position(), old(self)@.len(), from) {
                Some(p) => r == Ok::<u64, IoError>(p) && final(self).position() == p,
                None => r == Err::<u64, IoError>(IoError::InvalidInput) && final(self).position()
                    == old(self).position(),
            },
    {
        let target: i128 = match from {
            SeekFrom::Start(n) => n as i128,
            SeekFrom::End(d) => self.data.len() as i128 + d as i128,
            SeekFrom::Current(d) => self.pos as i128 + d as i128,
        };
        if 0 <= target && target <= u64::MAX as i128 {
            self.pos = target as u64;
            Ok(self.pos)
        } else {
            Err(IoError::InvalidInput)
        }
    }

    /// Takes the stream out and leaves an empty one in its place.
    pub fn take(&mut self) -> (w: ByteWriter)
        ensures
            w == *old(self),
            final(self)@ == Seq::<u8>::empty(),
            final(self).position() == 0,
    {
        let mut w = ByteWriter::new();
        core::mem::swap(self, &mut w);
        w
    }
}

impl Write for ByteWriter {
    open spec fn contents(&self) -> Seq<u8> {
        self@
    }

    open spec fn origin(&self) -> nat {
        0
    }

    open spec fn cursor(&self) -> nat {
        self.position() as nat
    }

    open spec fn mark(&self) -> nat {
        self@.len()
    }

    open spec fn limit(&self) -> nat {
        usize::MAX as nat
    }

    fn write_all(&mut self, buf: &[u8]) -> (r: Result<(), IoError>)
    {
        self.put(buf)
    }
}

impl ByteWriter {
    /// Writes all of `buf` at the position and moves behind it. A gap between
    /// the end and the position is filled with zeros. Fails, and changes
    /// nothing, when the new position does not fit in `usize`.
    pub fn put(&mut self, buf: &[u8]) -> (r: Result<(), IoError>)
        ensures
            r is Ok <==> old(self).position() + buf@.len() <= usize::MAX,
            r is Ok ==> final(self)@ == written(old(self)@, old(self).position() as int, buf@)
                && final(self).position() == old(self).position() + buf@.len(),
            r is Err ==> r == Err::<(), IoError>(IoError::Other) && final(self)@ == old(self)@
                && final(self).position() == old(self).position(),
    {
        let n = buf.len();
        if self.pos > (usize::MAX - n) as u64 {
            return Err(IoError::Other);
        }
        let start = self.pos as usize;
        let ghost before = self.data@;
        while self.data.len() < start
            invariant
                self.pos == old(self).pos,
                start == self.pos,
                before.len() <= self.data@.len(),
                self.data@.len() <= start || self.data@ == before,
                forall|i: int| 0 <= i < before.len() ==> self.data@[i] == before[i],
                forall|i: int| before.len() <= i < self.data@.len() ==> self.data@[i] == 0u8,
            decreases start - self.data.len(),
        {
            self.data.push(0u8);
        }
        let ghost padded = self.data@;
        let mut i: usize = 0;
        while i < n
            invariant
                self.pos == old(self).pos,
                start == self.pos,
                n == buf@.len(),
                i <= n,
                start + n <= usize::MAX,
                start <= padded.len(),
                self.data@.len() == if padded.len() >= start + i {
                    padded.len()
                } else {
                    (start + i) as nat
                },
                forall|k: int|
                    0 <= k < self.data@.len() ==> self.data@[k] == if start <= k < start + i {
                        buf@[k - start]
                    } else {
                        padded[k]
                    },
            decreases n - i,
        {
            let b = buf[i];
            if start + i < self.data.len() {
                self.data.set(start + i, b);
            } else {
                self.data.push(b);
            }
            i = i + 1;
        }
        self.pos = (start + n) as u64;
        assert(self.data@ =~= written(before, start as int, buf@));
        Ok(())
    }
}

/// Writes all of `buf` through `writer`.
pub fn write_bytes<W: Write>(writer: &mut W, buf: &[u8]) -> (r: Result<(), IoError>)
    ensures
        write_outcome(*old(writer), *final(writer), buf@, r is Ok),
        r matches Err(e) ==> e == IoError::Other,
{
    writer.write_all(buf)
}

} // verus!
