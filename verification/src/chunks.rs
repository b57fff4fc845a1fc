//! The HTTP/1.1 chunked transfer coding.
//!
//! A body is framed as a run of chunks, each a lowercase hexadecimal
//! length, `\r\n`, that many bytes, `\r\n`; a zero-length chunk ends the
//! body. [`ChunksEncoder`] produces that framing and [`ChunksDecoder`]
//! removes it, each against an exact specification.
use vstd::prelude::*;

use crate::numbers::{after_sign, all_hex_digits, hex, hex_accepts, hex_digit, hex_digit_val,
    hex_val, is_hex_digit, parse_hex_u64};
use crate::readers::ByteReader;

verus! {

/// The two bytes `\r\n`.
pub open spec fn crlf() -> Seq<u8> {
    seq![13u8, 10u8]
}

/// One chunk on the wire: the hexadecimal length, `\r\n`, the data,
/// `\r\n`. The zero-length chunk renders as `0\r\n\r\n` and ends a body.
pub open spec fn chunk_block(data: Seq<u8>) -> Seq<u8> {
    hex(data.len()) + crlf() + data + crlf()
}

/// The full-sized chunks an encoder with chunk size `cs` sends while
/// `pending` bytes are queued.
pub open spec fn full_blocks(pending: Seq<u8>, cs: nat) -> Seq<u8>
    decreases pending.len(),
{
    if cs > 0 && pending.len() >= cs {
        chunk_block(pending.take(cs as int)) + full_blocks(pending.skip(cs as int), cs)
    } else {
        Seq::empty()
    }
}

/// What stays queued after the full-sized chunks are sent.
pub open spec fn pending_rest(pending: Seq<u8>, cs: nat) -> Seq<u8>
    decreases pending.len(),
{
    if cs > 0 && pending.len() >= cs {
        pending_rest(pending.skip(cs as int), cs)
    } else {
        pending
    }
}

/// The complete chunked encoding of `data` with chunk size `cs`: the
/// full-sized chunks, a final shorter chunk if bytes remain, then the
/// zero-length terminator.
pub open spec fn spec_encode_chunks(data: Seq<u8>, cs: nat) -> Seq<u8> {
    full_blocks(data, cs) + tail_block(pending_rest(data, cs)) + chunk_block(Seq::empty())
}

/// The final shorter chunk, absent when nothing remains.
pub open spec fn tail_block(rest: Seq<u8>) -> Seq<u8> {
    if rest.len() > 0 {
        chunk_block(rest)
    } else {
        Seq::empty()
    }
}

/// Splits the incoming data into HTTP chunks.
///
/// Bytes accumulate in an internal buffer; every time the buffer holds a
/// full chunk's worth they leave as one chunk. Finishing the encoder
/// sends what remains as a last shorter chunk, then the terminator.
pub struct ChunksEncoder {
    /// Where the encoded frames are sent.
    pub output: Vec<u8>,
    /// The size of each full chunk.
    pub chunks_size: usize,
    /// Data waiting to be sent.
    pub buffer: Vec<u8>,
}

impl ChunksEncoder {
    pub open spec fn well_formed(&self) -> bool {
        self.chunks_size >= 1
    }

    /// An encoder over `output` with the default chunk size.
    pub fn new(output: Vec<u8>) -> (r: ChunksEncoder)
        ensures
            r.well_formed(),
            r.output@ == output@,
            r.buffer@ == Seq::<u8>::empty(),
            r.chunks_size == 8192,
    {
        ChunksEncoder::new_with_chunks_size(output, 8192)
    }

    /// An encoder over `output` sending chunks of `chunks` bytes.
    pub fn new_with_chunks_size(output: Vec<u8>, chunks: usize) -> (r: ChunksEncoder)
        requires
            chunks >= 1,
        ensures
            r.well_formed(),
            r.output@ == output@,
            r.buffer@ == Seq::<u8>::empty(),
            r.chunks_size == chunks,
    {
        ChunksEncoder { output, chunks_size: chunks, buffer: Vec::new() }
    }

    /// Accepts `buf`: the bytes queue up, and every full chunk's worth
    /// leaves for the output as one chunk.
    pub fn write(&mut self, buf: &Vec<u8>)
        requires
            old(self).well_formed(),
        ensures
            final(self).well_formed(),
            final(self).chunks_size == old(self).chunks_size,
            final(self).output@ == old(self).output@ + full_blocks(
                old(self).buffer@ + buf@,
                old(self).chunks_size as nat,
            ),
            final(self).buffer@ == pending_rest(
                old(self).buffer@ + buf@,
                old(self).chunks_size as nat,
            ),
            final(self).buffer@.len() < old(self).chunks_size,
    {
        self.buffer.extend_from_slice(buf.as_slice());
        let ghost pending0 = self.buffer@;
        assert(pending0 == old(self).buffer@ + buf@);
        let ghost cs = self.chunks_size as nat;
        let ghost out0 = self.output@;
        while self.buffer.len() >= self.chunks_size
            invariant
                self.well_formed(),
                self.chunks_size == old(self).chunks_size,
                self.output@ + full_blocks(self.buffer@, cs) == out0 + full_blocks(pending0, cs),
                pending_rest(self.buffer@, cs) == pending_rest(pending0, cs),
                cs == self.chunks_size as nat,
            decreases self.buffer@.len(),
        {
            let rest = self.buffer.split_off(self.chunks_size);
            send(&mut self.output, &self.buffer);
            proof {
                let b = self.buffer@ + rest@;
                assert(self.buffer@ =~= b.take(cs as int));
                assert(rest@ =~= b.skip(cs as int));
            }
            self.buffer = rest;
        }
        assert(full_blocks(self.buffer@, cs) =~= Seq::<u8>::empty());
        assert(self.output@ =~= self.output@ + full_blocks(self.buffer@, cs));
        assert(pending_rest(self.buffer@, cs) == self.buffer@);
        assert(self.output@ == out0 + full_blocks(pending0, cs));
        assert(self.buffer@ == pending_rest(pending0, cs));
    }

    /// Sends what still queues, as one shorter chunk; nothing leaves when
    /// the queue is empty.
    pub fn flush(&mut self)
        requires
            old(self).well_formed(),
        ensures
            final(self).well_formed(),
            final(self).chunks_size == old(self).chunks_size,
            final(self).output@ == old(self).output@ + tail_block(old(self).buffer@),
            final(self).buffer@ == Seq::<u8>::empty(),
    {
        if self.buffer.len() == 0 {
            assert(self.output@ + tail_block(self.buffer@) =~= self.output@);
            return ;
        }
        let mut buffer: Vec<u8> = Vec::new();
        core::mem::swap(&mut self.buffer, &mut buffer);
        send(&mut self.output, &buffer);
    }

    /// Ends the body: flushes the queue and sends the zero-length chunk,
    /// handing the output back.
    pub fn finish(self) -> (r: Vec<u8>)
        requires
            self.well_formed(),
        ensures
            r@ == self.output@ + tail_block(self.buffer@) + chunk_block(Seq::empty()),
    {
        let mut me = self;
        let ghost s0 = me;
        me.flush();
        let empty: Vec<u8> = Vec::new();
        send(&mut me.output, &empty);
        assert(me.output@ =~= s0.output@ + tail_block(s0.buffer@) + chunk_block(Seq::empty()));
        me.output
    }
}

/// Appends one chunk to `output`: the hexadecimal length of `data`,
/// `\r\n`, the data, `\r\n`.
fn send(output: &mut Vec<u8>, data: &Vec<u8>)
    ensures
        final(output)@ == old(output)@ + chunk_block(data@),
{
    crate::numbers::push_hex(output, data.len() as u64);
    output.push(13);
    output.push(10);
    output.extend_from_slice(data.as_slice());
    output.push(13);
    output.push(10);
    assert(output@ =~= old(output)@ + chunk_block(data@));
}

/// Encodes the whole of `data` with chunk size `cs`, terminator included.
pub fn encode_all(data: &Vec<u8>, cs: usize) -> (r: Vec<u8>)
    requires
        cs >= 1,
    ensures
        r@ == spec_encode_chunks(data@, cs as nat),
{
    let mut enc = ChunksEncoder::new_with_chunks_size(Vec::new(), cs);
    enc.write(data);
    proof {
        assert(Seq::<u8>::empty() + data@ =~= data@);
    }
    let r = enc.finish();
    assert(r@ =~= spec_encode_chunks(data@, cs as nat));
    r
}

/// An error while decoding chunks: the framing on the wire is not valid
/// chunked coding.
#[derive(Debug, Copy, Clone, PartialEq, Eq, Structural)]
pub struct ChunksError;

/// The position of the first `\r` in `s`.
pub open spec fn find_cr(s: Seq<u8>) -> Option<int>
    decreases s.len(),
{
    if s.len() == 0 {
        None
    } else if s[0] == 13 {
        Some(0)
    } else {
        match find_cr(s.drop_first()) {
            None => None,
            Some(j) => Some(j + 1),
        }
    }
}

/// `find_cr` names exactly the first `\r`.
pub proof fn lemma_find_cr_at(s: Seq<u8>, i: int)
    requires
        0 <= i < s.len(),
        s[i] == 13,
        forall|k: int| 0 <= k < i ==> s[k] != 13,
    ensures
        find_cr(s) == Some(i),
    decreases s.len(),
{
    if i > 0 {
        lemma_find_cr_at(s.drop_first(), i - 1);
    }
}

/// Without a `\r` there is nothing for `find_cr` to name.
pub proof fn lemma_find_cr_none(s: Seq<u8>)
    requires
        forall|k: int| 0 <= k < s.len() ==> s[k] != 13,
    ensures
        find_cr(s) is None,
    decreases s.len(),
{
    if s.len() > 0 {
        lemma_find_cr_none(s.drop_first());
    }
}

/// The meaning of a chunked body at the front of `s`: the decoded bytes
/// and how many bytes of `s` the framing spans, or nothing when the
/// framing is not valid.
///
/// Each step reads a hexadecimal size line ended by `\r\n`, then that
/// many data bytes ended by `\r\n`; a zero size ends the body.
pub open spec fn spec_decode_chunks(s: Seq<u8>) -> Option<(Seq<u8>, nat)>
    decreases s.len(),
{
    match find_cr(s) {
        None => None,
        Some(i) => {
            if !(0 <= i < s.len()) {
                None
            } else if !hex_accepts(s.take(i)) {
                None
            } else if !(i + 1 < s.len() && s[i + 1] == 10) {
                None
            } else {
                let n = hex_val(after_sign(s.take(i))) as int;
                if n == 0 {
                    if s.len() >= i + 4 && s[i + 2] == 13 && s[i + 3] == 10 {
                        Some((Seq::empty(), (i + 4) as nat))
                    } else {
                        None
                    }
                } else {
                    if s.len() >= i + 2 + n + 2 && s[i + 2 + n] == 13 && s[i + 2 + n + 1] == 10 {
                        match spec_decode_chunks(s.skip(i + 2 + n + 2)) {
                            None => None,
                            Some(rest) => Some(
                                (s.subrange(i + 2, i + 2 + n) + rest.0, (i + 2 + n + 2 + rest.1) as nat),
                            ),
                        }
                    } else {
                        None
                    }
                }
            }
        },
    }
}

/// A decoded tail, shifted behind what an earlier iteration already
/// produced and consumed.
pub open spec fn decode_shift(
    o: Option<(Seq<u8>, nat)>,
    acc: Seq<u8>,
    off: nat,
) -> Option<(Seq<u8>, nat)> {
    match o {
        None => None,
        Some(rest) => Some((acc + rest.0, (off + rest.1) as nat)),
    }
}

/// Reads HTTP chunks and hands back the real data.
pub struct ChunksDecoder {
    /// Where the chunks come from.
    pub source: ByteReader,
}

impl ChunksDecoder {
    pub open spec fn well_formed(&self) -> bool {
        self.source.well_formed()
    }

    /// A decoder over `source`.
    pub fn new(source: ByteReader) -> (r: ChunksDecoder)
        requires
            source.well_formed(),
        ensures
            r.well_formed(),
            r.source.remaining() == source.remaining(),
    {
        ChunksDecoder { source }
    }

    /// Decodes a whole chunked body from the front of the source.
    ///
    /// On success the decoded data comes back and the source stands on
    /// the first byte after the body's framing; the body decodes exactly
    /// when [`spec_decode_chunks`] gives it a meaning.
    #[verifier::rlimit(80)]
    pub fn read_to_end(&mut self) -> (r: Result<Vec<u8>, ChunksError>)
        requires
            old(self).well_formed(),
        ensures
            final(self).well_formed(),
            final(self).source.data == old(self).source.data,
            old(self).source.pos <= final(self).source.pos,
            match r {
                Ok(d) => {
                    &&& spec_decode_chunks(old(self).source.remaining()) matches Some(dc)
                    &&& d@ == dc.0
                    &&& final(self).source.remaining() == old(self).source.remaining().skip(
                        dc.1 as int,
                    )
                },
                Err(_) => spec_decode_chunks(old(self).source.remaining()) is None,
            },
    {
        let ghost rem0 = self.source.remaining();
        let ghost pos0 = self.source.pos;
        let mut acc: Vec<u8> = Vec::new();
        loop
            invariant
                self.well_formed(),
                pos0 <= self.source.pos,
                self.source.data == old(self).source.data,
                rem0 == old(self).source.remaining(),
                pos0 == old(self).source.pos,
                spec_decode_chunks(rem0) == decode_shift(
                    spec_decode_chunks(self.source.remaining()),
                    acc@,
                    (self.source.pos - pos0) as nat,
                ),
            decreases self.source.remaining().len(),
        {
            let ghost rem = self.source.remaining();
            let ghost off = (self.source.pos - pos0) as nat;
            let pos = self.source.pos;
            let len = self.source.data.len();
            let cr = match crate::bytes::find_byte(&self.source.data, 13, pos) {
                Some(i) => i,
                None => {
                    proof {
                        assert forall|k: int| 0 <= k < rem.len() implies rem[k] != 13 by {
                            assert(rem[k] == self.source.data@[pos + k]);
                        }
                        lemma_find_cr_none(rem);
                    }
                    return Err(ChunksError);
                },
            };
            let ghost i = cr - pos;
            proof {
                assert forall|k: int| 0 <= k < i implies rem[k] != 13 by {
                    assert(rem[k] == self.source.data@[pos + k]);
                }
                assert(rem[i] == self.source.data@[cr as int]);
                lemma_find_cr_at(rem, i);
            }
            let digits = crate::bytes::sub_vec(&self.source.data, pos, cr);
            proof {
                assert(digits@ =~= rem.take(i));
            }
            let n = match crate::numbers::parse_hex_u64(&digits) {
                Some(n) => n,
                None => {
                    return Err(ChunksError);
                },
            };
            if cr + 1 >= len || {
                let b = self.source.data[cr + 1];
                b != 10
            } {
                proof {
                    if i + 1 < rem.len() {
                        assert(rem[i + 1] == self.source.data@[cr + 1]);
                    }
                }
                return Err(ChunksError);
            }
            assert(rem[i + 1] == self.source.data@[cr + 1]);
            if n == 0 {
                if len - cr <= 3 {
                    return Err(ChunksError);
                }
                let b2 = self.source.data[cr + 2];
                let b3 = self.source.data[cr + 3];
                proof {
                    assert(rem[i + 2] == self.source.data@[cr + 2]);
                    assert(rem[i + 3] == self.source.data@[cr + 3]);
                }
                if b2 != 13 || b3 != 10 {
                    return Err(ChunksError);
                }
                self.source.pos = cr + 4;
                proof {
                    assert(spec_decode_chunks(rem) == Some((Seq::<u8>::empty(), (i + 4) as nat)));
                    assert(acc@ + Seq::<u8>::empty() =~= acc@);
                    assert(self.source.remaining() =~= rem0.skip(
                        (self.source.pos - pos0) as int,
                    ));
                }
                return Ok(acc);
            }
            // A non-empty chunk: the data bytes, then the closing pair.
            let after_size = cr + 2;
            let avail = (len - after_size) as u64;
            if avail < 2 || n > avail - 2 {
                proof {
                    assert(rem.len() == len - pos);
                    assert(!(rem.len() >= i + 2 + n + 2));
                }
                return Err(ChunksError);
            }
            let n_us = n as usize;
            let chunk = crate::bytes::sub_vec(&self.source.data, after_size, after_size + n_us);
            proof {
                assert(chunk@ =~= rem.subrange(i + 2, i + 2 + n as int));
            }
            let b2 = self.source.data[after_size + n_us];
            let b3 = self.source.data[after_size + n_us + 1];
            proof {
                assert(rem[i + 2 + n as int] == self.source.data@[after_size + n_us]);
                assert(rem[i + 2 + n as int + 1] == self.source.data@[after_size + n_us + 1]);
            }
            if b2 != 13 || b3 != 10 {
                return Err(ChunksError);
            }
            self.source.pos = after_size + n_us + 2;
            acc.extend_from_slice(chunk.as_slice());
            proof {
                let step = i + 2 + n as int + 2;
                assert(self.source.remaining() =~= rem.skip(step));
                let tail = spec_decode_chunks(self.source.remaining());
                assert(spec_decode_chunks(rem) == (match tail {
                    None => None::<(Seq<u8>, nat)>,
                    Some(rest) => Some(
                        (rem.subrange(i + 2, i + 2 + n as int) + rest.0, (step + rest.1) as nat),
                    ),
                }));
                if tail is Some {
                    let rest = tail.unwrap();
                    let prev = acc@.subrange(0, acc@.len() - n as int);
                    assert(prev + (chunk@ + rest.0) =~= acc@ + rest.0);
                    assert(decode_shift(spec_decode_chunks(rem), prev, off) == decode_shift(
                        tail,
                        acc@,
                        (off + step) as nat,
                    ));
                }
            }
        }
    }
}

/// Every byte of a hexadecimal numeral is a hexadecimal digit.
proof fn lemma_hex_digits_shape(n: nat)
    ensures
        all_hex_digits(hex(n)),
    decreases n,
{
    if n < 16 {
    } else {
        lemma_hex_digits_shape(n / 16);
        assert forall|i: int| 0 <= i < hex(n).len() implies is_hex_digit(hex(n)[i]) by {
            if i < hex(n).len() - 1 {
                assert(hex(n)[i] == hex(n / 16)[i]);
            }
        }
    }
}

/// Reading back a rendered hexadecimal numeral gives the number.
proof fn lemma_hex_val_of_hex(n: nat)
    ensures
        hex_val(hex(n)) == n,
    decreases n,
{
    if n < 16 {
        assert(hex(n).drop_last() =~= Seq::<u8>::empty());
        assert(hex_val(Seq::<u8>::empty()) == 0);
        assert(hex_digit_val(hex_digit(n)) == n);
    } else {
        lemma_hex_val_of_hex(n / 16);
        assert(hex(n).drop_last() =~= hex(n / 16));
        assert(hex_val(hex(n)) == hex_val(hex(n / 16)) * 16 + hex_digit_val(hex_digit(n % 16)));
        assert((n / 16) * 16 + n % 16 == n) by (nonlinear_arith);
    }
}

/// Decoding a stream that begins with one non-empty chunk peels that
/// chunk off and goes on with the rest.
proof fn lemma_decode_block(c: Seq<u8>, suffix: Seq<u8>)
    requires
        0 < c.len() <= u64::MAX,
    ensures
        spec_decode_chunks(chunk_block(c) + suffix) == (match spec_decode_chunks(suffix) {
            None => None,
            Some(r) => Some((c + r.0, (chunk_block(c).len() + r.1) as nat)),
        }),
{
    let s = chunk_block(c) + suffix;
    let h = hex(c.len());
    let i = h.len() as int;
    lemma_hex_digits_shape(c.len());
    assert forall|k: int| 0 <= k < i implies s[k] != 13 by {
        assert(s[k] == h[k]);
        assert(is_hex_digit(h[k]));
    }
    assert(s[i] == 13);
    lemma_find_cr_prefix(s, i);
    assert(s.take(i) =~= h);
    lemma_hex_val_of_hex(c.len());
    assert(is_hex_digit(h[0]));
    assert(after_sign(h) == h);
    assert(hex_accepts(h));
    assert(s[i + 1] == 10);
    let n = c.len() as int;
    assert(s.len() == i + 2 + n + 2 + suffix.len());
    assert(s[i + 2 + n] == 13);
    assert(s[i + 2 + n + 1] == 10);
    assert(s.subrange(i + 2, i + 2 + n) =~= c);
    assert(s.skip(i + 2 + n + 2) =~= suffix);
    assert(chunk_block(c).len() == i + 2 + n + 2);
}

/// The position of the first carriage return in a stream known at its
/// front.
proof fn lemma_find_cr_prefix(s: Seq<u8>, i: int)
    requires
        0 <= i < s.len(),
        s[i] == 13,
        forall|k: int| 0 <= k < i ==> s[k] != 13,
    ensures
        find_cr(s) == Some(i),
{
    lemma_find_cr_at(s, i);
}

/// Decoding the zero-length terminator yields an empty body spanning
/// its five bytes, whatever follows.
proof fn lemma_decode_terminator(suffix: Seq<u8>)
    ensures
        spec_decode_chunks(chunk_block(Seq::empty()) + suffix) == Some(
            (Seq::<u8>::empty(), 5nat),
        ),
{
    let s = chunk_block(Seq::<u8>::empty()) + suffix;
    assert(hex(0) =~= seq![48u8]);
    assert(chunk_block(Seq::<u8>::empty()) =~= seq![48u8, 13u8, 10u8, 13u8, 10u8]);
    assert(s[0] == 48 && s[1] == 13 && s[2] == 10 && s[3] == 13 && s[4] == 10);
    lemma_find_cr_prefix(s, 1);
    assert(s.take(1) =~= seq![48u8]);
    assert(after_sign(seq![48u8]) == seq![48u8]);
    assert(seq![48u8].drop_last() =~= Seq::<u8>::empty());
    assert(hex_val(Seq::<u8>::empty()) == 0);
    assert(hex_val(seq![48u8]) == hex_val(Seq::<u8>::empty()) * 16 + hex_digit_val(48));
    assert(hex_accepts(seq![48u8]));
}

/// The coding round-trips: what the encoder frames, the decoder strips
/// back off, consuming exactly the encoding and nothing more. This is
/// how a chunked request body hands the connection back at the right
/// byte.
#[verifier::rlimit(100)]
pub proof fn lemma_chunks_round_trip(data: Seq<u8>, cs: nat)
    requires
        1 <= cs,
        data.len() <= u64::MAX,
    ensures
        spec_decode_chunks(spec_encode_chunks(data, cs)) == Some(
            (data, spec_encode_chunks(data, cs).len() as nat),
        ),
    decreases data.len(),
{
    let e = spec_encode_chunks(data, cs);
    if data.len() >= cs {
        let head = data.take(cs as int);
        let rest = data.skip(cs as int);
        assert(e =~= chunk_block(head) + spec_encode_chunks(rest, cs));
        lemma_chunks_round_trip(rest, cs);
        lemma_decode_block(head, spec_encode_chunks(rest, cs));
        assert(head + rest =~= data);
    } else if data.len() > 0 {
        assert(full_blocks(data, cs) =~= Seq::<u8>::empty());
        assert(e =~= chunk_block(data) + chunk_block(Seq::<u8>::empty()));
        lemma_decode_terminator(Seq::<u8>::empty());
        assert(chunk_block(Seq::<u8>::empty()) + Seq::<u8>::empty() =~= chunk_block(
            Seq::<u8>::empty(),
        ));
        lemma_decode_block(data, chunk_block(Seq::<u8>::empty()));
        assert(data + Seq::<u8>::empty() =~= data);
    } else {
        assert(full_blocks(data, cs) =~= Seq::<u8>::empty());
        assert(e =~= chunk_block(Seq::<u8>::empty()));
        lemma_decode_terminator(Seq::<u8>::empty());
        assert(chunk_block(Seq::<u8>::empty()) + Seq::<u8>::empty() =~= chunk_block(
            Seq::<u8>::empty(),
        ));
    }
}

} // verus!
