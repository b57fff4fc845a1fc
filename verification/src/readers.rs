//! Byte sources and sinks.
//!
//! The library reads from and writes to in-memory byte buffers; a
//! [`ByteReader`] is a cursor over bytes already received, and a plain
//! `Vec<u8>` is a sink. The adapters here mirror the little stream
//! combinators of the server: a reader bounded to an exact length, a
//! writer bounded to an exact length, type-erasing wrappers, and a
//! combined read/write stream.
use vstd::prelude::*;

verus! {

/// A cursor over a buffer of received bytes.
pub struct ByteReader {
    pub data: Vec<u8>,
    pub pos: usize,
}

impl ByteReader {
    /// The cursor never stands past the end of its buffer.
    pub open spec fn well_formed(&self) -> bool {
        self.pos <= self.data@.len()
    }

    /// The bytes not yet consumed.
    pub open spec fn remaining(&self) -> Seq<u8> {
        self.data@.skip(self.pos as int)
    }

    /// A reader over the whole of `data`.
    pub fn new(data: Vec<u8>) -> (r: ByteReader)
        ensures
            r.well_formed(),
            r.remaining() == data@,
    {
        let r = ByteReader { data, pos: 0 };
        assert(r.remaining() =~= r.data@);
        r
    }

    /// True when no bytes remain.
    pub fn eof(&self) -> (r: bool)
        requires
            self.well_formed(),
        ensures
            r == (self.remaining().len() == 0),
    {
        self.pos == self.data.len()
    }

    /// Reads up to `n` bytes, fewer only at the end of the buffer.
    pub fn read(&mut self, n: usize) -> (r: Vec<u8>)
        requires
            old(self).well_formed(),
        ensures
            final(self).well_formed(),
            r@ == old(self).remaining().take(min_len(n as nat, old(self).remaining().len())),
            final(self).remaining() == old(self).remaining().skip(
                min_len(n as nat, old(self).remaining().len()),
            ),
            final(self).data == old(self).data,
    {
        let avail = self.data.len() - self.pos;
        let take = if n < avail {
            n
        } else {
            avail
        };
        let out = crate::bytes::sub_vec(&self.data, self.pos, self.pos + take);
        self.pos = self.pos + take;
        assert(out@ =~= old(self).remaining().take(
            min_len(n as nat, old(self).remaining().len()),
        ));
        assert(self.remaining() =~= old(self).remaining().skip(
            min_len(n as nat, old(self).remaining().len()),
        ));
        out
    }

    /// Reads one byte; `None` at the end of the buffer.
    pub fn read_byte(&mut self) -> (r: Option<u8>)
        requires
            old(self).well_formed(),
        ensures
            final(self).well_formed(),
            final(self).data == old(self).data,
            match r {
                Some(b) => old(self).remaining().len() > 0 && b == old(self).remaining()[0]
                    && final(self).remaining() == old(self).remaining().drop_first(),
                None => old(self).remaining().len() == 0 && *final(self) == *old(self),
            },
    {
        if self.pos == self.data.len() {
            return None;
        }
        let b = self.data[self.pos];
        self.pos = self.pos + 1;
        assert(self.remaining() =~= old(self).remaining().drop_first());
        Some(b)
    }

    /// Reads everything that remains.
    pub fn read_to_end(&mut self) -> (r: Vec<u8>)
        requires
            old(self).well_formed(),
        ensures
            final(self).well_formed(),
            r@ == old(self).remaining(),
            final(self).remaining().len() == 0,
            final(self).data == old(self).data,
    {
        let n = self.data.len() - self.pos;
        let r = self.read(n);
        assert(r@ =~= old(self).remaining());
        r
    }

    /// Appends newly received bytes behind the unread remainder, leaving
    /// everything already consumed where it was.
    pub fn append(&mut self, more: &Vec<u8>)
        requires
            old(self).well_formed(),
        ensures
            final(self).well_formed(),
            final(self).remaining() == old(self).remaining() + more@,
            final(self).pos == old(self).pos,
    {
        self.data.extend_from_slice(more.as_slice());
        assert(self.remaining() =~= old(self).remaining() + more@);
    }

    /// Skips up to `n` bytes, fewer only at the end of the buffer.
    pub fn skip(&mut self, n: usize)
        requires
            old(self).well_formed(),
    ensures
            final(self).well_formed(),
            final(self).remaining() == old(self).remaining().skip(
                min_len(n as nat, old(self).remaining().len()),
            ),
            final(self).data == old(self).data,
    {
        let avail = self.data.len() - self.pos;
        let take = if n < avail {
            n
        } else {
            avail
        };
        self.pos = self.pos + take;
        assert(self.remaining() =~= old(self).remaining().skip(
            min_len(n as nat, old(self).remaining().len()),
        ));
    }
}

/// The smaller of two lengths.
pub open spec fn min_len(a: nat, b: nat) -> int {
    if a < b {
        a as int
    } else {
        b as int
    }
}

/// A reader that reads exactly `size` bytes from a sub-reader.
///
/// Once the limit is reached it reports end of input; when it is released
/// before the limit, the remaining bytes are read and thrown away so that
/// the underlying reader stands just past this reader's span.
pub struct EqualReader {
    pub reader: ByteReader,
    pub size: usize,
}

impl EqualReader {
    pub open spec fn well_formed(&self) -> bool {
        self.reader.well_formed()
    }

    /// The bytes this reader still yields.
    pub open spec fn body(&self) -> Seq<u8> {
        self.reader.remaining().take(
            min_len(self.size as nat, self.reader.remaining().len()),
        )
    }

    /// The limit still to be read.
    pub open spec fn size_left(&self) -> nat {
        self.size as nat
    }

    /// A reader over the first `size` bytes of `reader`.
    pub fn new(reader: ByteReader, size: usize) -> (r: EqualReader)
        requires
            reader.well_formed(),
        ensures
            r.well_formed(),
            r.body() == reader.remaining().take(min_len(size as nat, reader.remaining().len())),
            r.size_left() == size,
    {
        EqualReader { reader, size }
    }

    /// Reads up to `n` bytes of the remaining body; both the budget and
    /// the underlying reader advance by exactly the bytes handed out.
    pub fn read(&mut self, n: usize) -> (r: Vec<u8>)
        requires
            old(self).well_formed(),
        ensures
            final(self).well_formed(),
            r@ == old(self).body().take(min_len(n as nat, old(self).body().len())),
            final(self).body() == old(self).body().skip(
                min_len(n as nat, old(self).body().len()),
            ),
            final(self).size_left() == old(self).size_left() - r@.len(),
            final(self).reader.remaining() == old(self).reader.remaining().skip(r@.len() as int),
    {
        let take = if n < self.size {
            n
        } else {
            self.size
        };
        let out = self.reader.read(take);
        self.size = self.size - out.len();
        assert(out@ =~= old(self).body().take(min_len(n as nat, old(self).body().len())));
        assert(self.body() =~= old(self).body().skip(min_len(n as nat, old(self).body().len())));
        out
    }

    /// Reads the whole remaining body; the budget and the underlying
    /// reader advance by exactly the bytes handed out.
    pub fn read_to_end(&mut self) -> (r: Vec<u8>)
        requires
            old(self).well_formed(),
        ensures
            final(self).well_formed(),
            r@ == old(self).body(),
            final(self).body().len() == 0,
            final(self).size_left() == old(self).size_left() - r@.len(),
            final(self).reader.remaining() == old(self).reader.remaining().skip(r@.len() as int),
    {
        let n = self.size;
        self.read(n)
    }

    /// Releases this reader: any unread body bytes are consumed from the
    /// underlying reader and thrown away, and the reader is handed back
    /// standing just past the body, so the framing of what follows on
    /// the stream is preserved.
    pub fn into_inner(self) -> (r: ByteReader)
        requires
            self.well_formed(),
        ensures
            r.well_formed(),
            r.remaining() == self.reader.remaining().skip(
                min_len(self.size as nat, self.reader.remaining().len()),
            ),
            r.remaining() == self.reader.remaining().skip(self.body().len() as int),
    {
        let EqualReader { mut reader, size } = self;
        reader.skip(size);
        reader
    }
}

/// A writer that passes through at most `size` bytes to a sub-writer.
///
/// Bytes past the limit are dropped; if fewer than `size` bytes were
/// written when the writer is finished, the difference is filled with
/// zero bytes so the sub-writer always receives exactly `size` bytes.
pub struct EqualWriter {
    pub writer: Vec<u8>,
    pub size: usize,
}

impl EqualWriter {
    /// The bytes passed through so far.
    pub open spec fn written(&self) -> Seq<u8> {
        self.writer@
    }

    /// The limit still to be filled.
    pub open spec fn size_left(&self) -> nat {
        self.size as nat
    }

    /// A writer that lets `size` bytes through to `writer`.
    pub fn new(writer: Vec<u8>, size: usize) -> (r: EqualWriter)
        ensures
            r.written() == writer@,
            r.size_left() == size,
    {
        EqualWriter { writer, size }
    }

    /// Writes `buf`, truncated to the remaining limit.
    pub fn write(&mut self, buf: &Vec<u8>)
        ensures
            final(self).written() == old(self).written() + buf@.take(
                min_len(buf@.len(), old(self).size_left()),
            ),
            final(self).size_left() == old(self).size_left() - min_len(
                buf@.len(),
                old(self).size_left(),
            ),
    {
        let take = if buf.len() < self.size {
            buf.len()
        } else {
            self.size
        };
        let part = crate::bytes::sub_vec(buf, 0, take);
        self.writer.append(&mut {
            part
        });
        self.size = self.size - take;
        assert(self.written() =~= old(self).written() + buf@.take(
            min_len(buf@.len(), old(self).size_left()),
        ));
    }

    /// Finishes the writer: the unfilled part of the limit is padded with
    /// zero bytes, and the sub-writer is handed back.
    pub fn finish(self) -> (r: Vec<u8>)
        ensures
            r@ == self.written() + zeroes(self.size_left()),
    {
        let EqualWriter { mut writer, size } = self;
        let mut i: usize = 0;
        while i < size
            invariant
                i <= size,
                writer@ == self.written() + zeroes(i as nat),
            decreases size - i,
        {
            writer.push(0);
            assert(writer@ =~= self.written() + zeroes((i + 1) as nat));
            i = i + 1;
        }
        writer
    }
}

/// A run of zero bytes.
pub open spec fn zeroes(n: nat) -> Seq<u8> {
    Seq::new(n, |i: int| 0u8)
}

/// A type-erasing wrapper around a byte reader.
pub struct AnyReader {
    pub reader: ByteReader,
}

/// A type-erasing wrapper around a byte sink.
pub struct AnyWriter {
    pub writer: Vec<u8>,
}

impl AnyReader {
    pub open spec fn view(&self) -> ByteReader {
        self.reader
    }

    pub fn new(reader: ByteReader) -> (r: AnyReader)
        ensures
            r.view() == reader,
    {
        AnyReader { reader }
    }

    pub fn unwrap(self) -> (r: ByteReader)
        ensures
            r == self.view(),
    {
        self.reader
    }
}

impl AnyWriter {
    pub open spec fn view(&self) -> Seq<u8> {
        self.writer@
    }

    pub fn new(writer: Vec<u8>) -> (r: AnyWriter)
        ensures
            r.view() == writer@,
    {
        AnyWriter { writer }
    }

    pub fn unwrap(self) -> (r: Vec<u8>)
        ensures
            r@ == self.view(),
    {
        self.writer
    }
}

/// A reader that hands its source through unchanged.
///
/// The compressed encoding it once decoded is not wired up, as in the
/// server it models; reading yields the source bytes as they are.
pub struct DeflateReader {
    pub reader: ByteReader,
}

impl DeflateReader {
    pub open spec fn well_formed(&self) -> bool {
        self.reader.well_formed()
    }

    pub open spec fn remaining(&self) -> Seq<u8> {
        self.reader.remaining()
    }

    pub fn new(reader: ByteReader) -> (r: DeflateReader)
        requires
            reader.well_formed(),
        ensures
            r.well_formed(),
            r.remaining() == reader.remaining(),
    {
        DeflateReader { reader }
    }

    pub fn read_to_end(&mut self) -> (r: Vec<u8>)
        requires
            old(self).well_formed(),
        ensures
            final(self).well_formed(),
            r@ == old(self).remaining(),
            final(self).remaining().len() == 0,
    {
        self.reader.read_to_end()
    }
}

/// One value holding both directions of a stream: something to read from
/// and something to write to.
pub struct CustomStream<R, W> {
    pub reader: R,
    pub writer: W,
}

impl<R, W> CustomStream<R, W> {
    pub fn new(reader: R, writer: W) -> (r: CustomStream<R, W>)
        ensures
            r.reader == reader,
            r.writer == writer,
    {
        CustomStream { reader, writer }
    }
}

/// A byte sink that either buffers or passes straight through; both sides
/// collect the same bytes, the difference being when the caller outside
/// the library flushes them.
pub enum MaybeBufferedWriter {
    Buffered(Vec<u8>),
    Unbuffered(Vec<u8>),
}

impl MaybeBufferedWriter {
    /// The bytes written so far.
    pub open spec fn view(&self) -> Seq<u8> {
        match *self {
            MaybeBufferedWriter::Buffered(v) => v@,
            MaybeBufferedWriter::Unbuffered(v) => v@,
        }
    }

    /// Writes the whole of `buf`.
    pub fn write_all(&mut self, buf: &Vec<u8>)
        ensures
            final(self).view() == old(self).view() + buf@,
            (*final(self)) is Buffered <==> (*old(self)) is Buffered,
    {
        match self {
            MaybeBufferedWriter::Buffered(v) => v.extend_from_slice(buf.as_slice()),
            MaybeBufferedWriter::Unbuffered(v) => v.extend_from_slice(buf.as_slice()),
        }
    }
}

} // verus!
