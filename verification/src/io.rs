//! Byte sources and sinks, an in-memory source, and the byte-counting wrapper.
//!
//! The decoders of this library never touch a socket or a file. They read
//! from a [`ByteSource`] and write to a [`ByteSink`]; what those are made of is
//! the caller's business. A source is modelled by the sequence of bytes it has
//! yet to deliver: a read either takes bytes off the front of that sequence or,
//! when too few are left, fails with [`RedisSyncError::Disconnect`].

use crate::error::RedisSyncError;
use vstd::prelude::*;

verus! {

/// What `read_exact` owes for a source holding `pending`, asked for `len` bytes:
/// the bytes handed out together with what stays behind, or the failure.
pub open spec fn take_exact(pending: Seq<u8>, len: int) -> Result<(Seq<u8>, Seq<u8>), RedisSyncError> {
    if 0 <= len <= pending.len() {
        Ok((pending.take(len), pending.skip(len)))
    } else {
        Err(RedisSyncError::Disconnect)
    }
}

/// What `read_u8` owes for a source holding `pending`.
pub open spec fn take_byte(pending: Seq<u8>) -> Result<(u8, Seq<u8>), RedisSyncError> {
    if pending.len() > 0 {
        Ok((pending[0], pending.skip(1)))
    } else {
        Err(RedisSyncError::Disconnect)
    }
}

/// A meter after `count` more bytes have passed: a running meter moves on by
/// `count` and stops at the largest 64-bit number, a meter that is off stays off.
pub open spec fn metered(meter: Option<u64>, count: int) -> Option<u64> {
    match meter {
        Some(seen) => Some(
            if seen + count <= u64::MAX {
                (seen + count) as u64
            } else {
                u64::MAX
            },
        ),
        None => None,
    }
}

/// What can be observed of a byte source.
pub ghost struct Feed {
    /// The bytes the source has yet to deliver, next byte first.
    pub pending: Seq<u8>,
    /// The number of bytes that have passed since the source was last asked
    /// to count, or `None` where it is not counting.
    pub meter: Option<u64>,
}

/// Whether an executable outcome `got`, which took a source from `before` to
/// `after`, is the outcome `want` that a grammar function computed from
/// `before.pending`.
///
/// Success must agree on the value and on the bytes left over, and the meter
/// must have moved by the number of bytes consumed. Failure must agree on the
/// error; of the source nothing is said then.
pub open spec fn agrees<T: View>(
    got: Result<T, RedisSyncError>,
    before: Feed,
    after: Feed,
    want: Result<(T::V, Seq<u8>), RedisSyncError>,
) -> bool {
    match (got, want) {
        (Ok(value), Ok((model, rest))) => {
            &&& value@ == model
            &&& after.pending == rest
            &&& after.meter == metered(before.meter, before.pending.len() - rest.len())
        },
        (Err(e), Err(w)) => e == w,
        _ => false,
    }
}

/// An executable outcome seen through `model`: a value as what it stands
/// for, a failure as it is.
pub open spec fn modeled<T, M>(got: Result<T, RedisSyncError>, model: spec_fn(T) -> M) -> Result<
    M,
    RedisSyncError,
> {
    match got {
        Ok(value) => Ok(model(value)),
        Err(e) => Err(e),
    }
}

/// Like [`agrees`], for an outcome that has been put in terms of its model already.
pub open spec fn settles<M>(
    got: Result<M, RedisSyncError>,
    before: Feed,
    after: Feed,
    want: Result<(M, Seq<u8>), RedisSyncError>,
) -> bool {
    match (got, want) {
        (Ok(value), Ok((model, rest))) => {
            &&& value == model
            &&& after.pending == rest
            &&& after.meter == metered(before.meter, before.pending.len() - rest.len())
        },
        (Err(e), Err(w)) => e == w,
        _ => false,
    }
}

/// Anything that hands out bytes in order.
pub trait ByteSource {
    /// What can be observed of this source.
    ///
    /// It is by this description that the readers say what they return
    /// and where they leave the source. Each source says for itself what
    /// it holds. Compiled code never asks: a source written in plain Rust
    /// gives the function any body, and is taken at its word to deliver
    /// some sequence of bytes and then to fail.
    spec fn feed(&self) -> Feed;

    /// Takes the next byte, or fails with `Disconnect` when none is left.
    /// A read that fails counts nothing: the meter is as it was.
    fn read_u8(&mut self) -> (r: Result<u8, RedisSyncError>)
        ensures
            agrees(r, old(self).feed(), final(self).feed(), take_byte(old(self).feed().pending)),
            r is Err ==> final(self).feed().meter == old(self).feed().meter,
    ;

    /// Takes exactly `len` bytes, or fails with `Disconnect` when fewer are
    /// left. A read that fails counts nothing: the meter is as it was,
    /// however many bytes the source has given up.
    fn read_exact(&mut self, len: u64) -> (r: Result<Vec<u8>, RedisSyncError>)
        ensures
            agrees(
                r,
                old(self).feed(),
                final(self).feed(),
                take_exact(old(self).feed().pending, len as int),
            ),
            r is Err ==> final(self).feed().meter == old(self).feed().meter,
    ;

    /// Takes at most `max` of the next bytes; how many is up to the source.
    /// An empty result means that `max` was zero or that the source is drained.
    fn read(&mut self, max: usize) -> (bytes: Vec<u8>)
        ensures
            bytes@.len() <= max,
            bytes@.len() == 0 ==> max == 0 || old(self).feed().pending.len() == 0,
            agrees(
                Ok::<Vec<u8>, RedisSyncError>(bytes),
                old(self).feed(),
                final(self).feed(),
                take_exact(old(self).feed().pending, bytes@.len() as int),
            ),
    ;
}

/// What can be observed of a byte sink.
pub ghost struct Outlet {
    /// Everything written so far, first byte first.
    pub sent: Seq<u8>,
    /// How many more bytes the sink is going to take, or `None` where it
    /// takes whatever it is given.
    pub room: Option<nat>,
}

/// What `write_all` owes for a sink in state `outlet`, given `bytes`: the
/// sink's next state, or the failure.
pub open spec fn put_all(outlet: Outlet, bytes: Seq<u8>) -> Result<Outlet, RedisSyncError> {
    match outlet.room {
        None => Ok(Outlet { sent: outlet.sent + bytes, room: None }),
        Some(room) => if bytes.len() <= room {
            Ok(Outlet { sent: outlet.sent + bytes, room: Some((room - bytes.len()) as nat) })
        } else {
            Err(RedisSyncError::Disconnect)
        },
    }
}

/// Anything that takes bytes in order.
pub trait ByteSink {
    /// What can be observed of this sink.
    ///
    /// Each sink says for itself what it has taken. Compiled code never
    /// asks: a sink written in plain Rust gives the function any body, and
    /// is taken at its word to keep what it is given in order.
    spec fn outlet(&self) -> Outlet;

    /// Writes all of `bytes`, or fails with `Disconnect` where the sink has
    /// no room for them. Of the sink nothing is said after a failure.
    fn write_all(&mut self, bytes: &[u8]) -> (r: Result<(), RedisSyncError>)
        ensures
            match put_all(old(self).outlet(), bytes@) {
                Ok(outlet) => r is Ok && final(self).outlet() == outlet,
                Err(e) => r == Err::<(), RedisSyncError>(e),
            },
    ;
}

/// A byte source over a buffer held in memory, with a read position.
///
/// The position may stand anywhere, also past the end of the buffer, in which
/// case nothing is pending.
pub struct ByteReader {
    data: Vec<u8>,
    pos: usize,
}

impl ByteReader {
    /// The whole buffer, read or not.
    pub closed spec fn buffer(&self) -> Seq<u8> {
        self.data@
    }

    /// The read position, counted from the start of the buffer.
    pub closed spec fn offset(&self) -> nat {
        self.pos as nat
    }

    /// The part of `buffer` that lies at or after `offset`.
    pub open spec fn rest_of(buffer: Seq<u8>, offset: nat) -> Seq<u8> {
        if offset <= buffer.len() {
            buffer.skip(offset as int)
        } else {
            Seq::empty()
        }
    }

    /// A reader at the start of `data`.
    pub fn new(data: Vec<u8>) -> (reader: ByteReader)
        ensures
            reader.buffer() == data@,
            reader.offset() == 0,
            reader.feed().pending == data@,
    {
        let reader = ByteReader { data, pos: 0 };
        assert(reader.feed().pending =~= data@);
        reader
    }

    /// The read position.
    pub fn position(&self) -> (pos: usize)
        ensures
            pos == self.offset(),
    {
        self.pos
    }

    /// Moves the read position; the buffer stays as it is.
    pub fn set_position(&mut self, pos: usize)
        ensures
            final(self).buffer() == old(self).buffer(),
            final(self).offset() == pos,
    {
        self.pos = pos;
    }

    /// How many bytes are pending.
    pub fn remaining(&self) -> (count: usize)
        ensures
            count == self.feed().pending.len(),
    {
        if self.pos <= self.data.len() {
            self.data.len() - self.pos
        } else {
            0
        }
    }

    /// Gives the buffer back.
    pub fn into_inner(self) -> (data: Vec<u8>)
        ensures
            data@ == self.buffer(),
    {
        self.data
    }
}

impl ByteSource for ByteReader {
    open spec fn feed(&self) -> Feed {
        Feed { pending: Self::rest_of(self.buffer(), self.offset()), meter: None }
    }

    fn read_u8(&mut self) -> (r: Result<u8, RedisSyncError>)
        ensures
            final(self).buffer() == old(self).buffer(),
            r is Ok ==> final(self).offset() == old(self).offset() + 1,
            r is Err ==> final(self).offset() == old(self).offset(),
    {
        if self.pos < self.data.len() {
            let byte = self.data[self.pos];
            self.pos = self.pos + 1;
            assert(self.feed().pending =~= old(self).feed().pending.skip(1));
            Ok(byte)
        } else {
            Err(RedisSyncError::Disconnect)
        }
    }

    fn read_exact(&mut self, len: u64) -> (r: Result<Vec<u8>, RedisSyncError>)
        ensures
            final(self).buffer() == old(self).buffer(),
            r is Ok ==> final(self).offset() == old(self).offset() + len,
            r is Err ==> final(self).offset() == old(self).buffer().len(),
    {
        let left = self.remaining();
        if len > left as u64 {
            self.pos = self.data.len();
            return Err(RedisSyncError::Disconnect);
        }
        let count = len as usize;
        let mut bytes: Vec<u8> = Vec::new();
        if count > 0 {
            assert(self.feed().pending.len() == self.data@.len() - self.pos);
            assert(self.data@.len() == self.data.len());
            let end = self.pos + count;
            bytes.extend_from_slice(&self.data[self.pos..end]);
            self.pos = end;
        }
        assert(bytes@ =~= old(self).feed().pending.take(len as int));
        assert(self.feed().pending =~= old(self).feed().pending.skip(len as int));
        Ok(bytes)
    }

    fn read(&mut self, max: usize) -> (bytes: Vec<u8>)
        ensures
            final(self).buffer() == old(self).buffer(),
            final(self).offset() == old(self).offset() + bytes@.len(),
            bytes@.len() == if max <= old(self).feed().pending.len() { max as nat } else { old(self).feed().pending.len() },
    {
        let left = self.remaining();
        let count = if max <= left { max } else { left };
        let mut bytes: Vec<u8> = Vec::new();
        if count > 0 {
            assert(self.feed().pending.len() == self.data@.len() - self.pos);
            assert(self.data@.len() == self.data.len());
            let end = self.pos + count;
            bytes.extend_from_slice(&self.data[self.pos..end]);
            self.pos = end;
        }
        assert(bytes@ =~= old(self).feed().pending.take(count as int));
        assert(self.feed().pending =~= old(self).feed().pending.skip(count as int));
        bytes
    }
}

/// A growable buffer takes whatever is written to it.
impl ByteSink for Vec<u8> {
    open spec fn outlet(&self) -> Outlet {
        Outlet { sent: self@, room: None }
    }

    fn write_all(&mut self, bytes: &[u8]) -> (r: Result<(), RedisSyncError>) {
        self.extend_from_slice(bytes);
        assert(self@ =~= old(self)@ + bytes@);
        Ok(())
    }
}

/// A byte source that measures how many bytes pass through it.
///
/// It starts out not counting. [`CountReader::mark`] sets the count to zero and
/// starts counting every byte read from then on; [`CountReader::reset`] stops
/// counting and hands the count out. One `mark` before a frame is decoded and
/// one `reset` after it give the frame's length on the wire.
pub struct CountReader<R: ByteSource> {
    input: R,
    len: u64,
    marked: bool,
}

impl<R: ByteSource> CountReader<R> {
    /// Whether bytes are being counted.
    pub open spec fn is_marked(&self) -> bool {
        self.feed().meter is Some
    }

    /// The bytes counted since the last `mark`; zero while not counting.
    pub open spec fn counted(&self) -> nat {
        match self.feed().meter {
            Some(seen) => seen as nat,
            None => 0,
        }
    }

    /// The wrapped source.
    pub closed spec fn inner(&self) -> R {
        self.input
    }

    /// Wraps `input`, not counting.
    pub fn new(input: R) -> (reader: CountReader<R>)
        ensures
            reader.feed().meter is None,
            reader.feed().pending == input.feed().pending,
            reader.inner() == input,
    {
        CountReader { input, len: 0, marked: false }
    }

    /// Sets the count to zero and starts counting.
    pub fn mark(&mut self)
        ensures
            final(self).feed().meter == Some(0u64),
            final(self).feed().pending == old(self).feed().pending,
            final(self).inner() == old(self).inner(),
    {
        self.len = 0;
        self.marked = true;
    }

    /// Stops counting and returns the bytes counted since `mark`; fails with
    /// `NotMarked` when no count was running.
    pub fn reset(&mut self) -> (r: Result<u64, RedisSyncError>)
        ensures
            r == match old(self).feed().meter {
                Some(seen) => Ok::<u64, RedisSyncError>(seen),
                None => Err::<u64, RedisSyncError>(RedisSyncError::NotMarked),
            },
            final(self).feed().meter is None,
            final(self).feed().pending == old(self).feed().pending,
            final(self).inner() == old(self).inner(),
    {
        if self.marked {
            let len = self.len;
            self.len = 0;
            self.marked = false;
            return Ok(len);
        }
        Err(RedisSyncError::NotMarked)
    }

    /// Unwraps the source.
    pub fn into_inner(self) -> (input: R)
        ensures
            input == self.inner(),
    {
        self.input
    }
}

impl<R: ByteSource> ByteSource for CountReader<R> {
    closed spec fn feed(&self) -> Feed {
        Feed {
            pending: self.input.feed().pending,
            meter: if self.marked {
                Some(self.len)
            } else {
                None
            },
        }
    }

    fn read_u8(&mut self) -> (r: Result<u8, RedisSyncError>) {
        match self.input.read_u8() {
            Ok(byte) => {
                if self.marked {
                    self.len = self.len.saturating_add(1);
                }
                Ok(byte)
            },
            Err(e) => Err(e),
        }
    }

    fn read_exact(&mut self, len: u64) -> (r: Result<Vec<u8>, RedisSyncError>) {
        match self.input.read_exact(len) {
            Ok(bytes) => {
                if self.marked {
                    self.len = self.len.saturating_add(len);
                }
                Ok(bytes)
            },
            Err(e) => Err(e),
        }
    }

    fn read(&mut self, max: usize) -> (bytes: Vec<u8>) {
        let bytes = self.input.read(max);
        if self.marked {
            self.len = self.len.saturating_add(bytes.len() as u64);
        }
        bytes
    }
}

/// The most that one `read` is asked for while skipping.
pub const SKIP_CHUNK: usize = 4096;

/// What is left of `pending` once up to `length` bytes have been dropped.
pub open spec fn after_skip(pending: Seq<u8>, length: int) -> Seq<u8> {
    if 0 <= length <= pending.len() {
        pending.skip(length)
    } else {
        Seq::empty()
    }
}

/// Drops up to `length` bytes from the front of `input`: fewer only where the
/// source runs dry first, which is no failure.
///
/// A snapshot sent without a length ends in a 40-byte delimiter that the
/// snapshot decoder leaves in the stream; this is how a caller gets past it.
pub fn skip<R: ByteSource>(input: &mut R, length: u64)
    ensures
        final(input).feed().pending == after_skip(old(input).feed().pending, length as int),
        final(input).feed().meter == metered(
            old(input).feed().meter,
            old(input).feed().pending.len() - final(input).feed().pending.len(),
        ),
{
    let mut left: u64 = length;
    loop
        invariant
            left <= length,
            length - left <= old(input).feed().pending.len(),
            input.feed().pending == old(input).feed().pending.skip(length - left),
            input.feed().meter == metered(old(input).feed().meter, length - left),
        ensures
            input.feed().pending == after_skip(old(input).feed().pending, length as int),
            input.feed().meter == metered(
                old(input).feed().meter,
                old(input).feed().pending.len() - input.feed().pending.len(),
            ),
        decreases left,
    {
        let ghost before = input.feed().pending;
        let ghost done = length - left;
        let want: usize = if left < SKIP_CHUNK as u64 {
            left as usize
        } else {
            SKIP_CHUNK
        };
        let chunk = input.read(want);
        let got = chunk.len();
        assert(input.feed().pending =~= old(input).feed().pending.skip(done + got));
        if got == 0 {
            assert(input.feed().pending =~= after_skip(old(input).feed().pending, length as int));
            break;
        }
        left = left - got as u64;
    }
}

} // verus!
