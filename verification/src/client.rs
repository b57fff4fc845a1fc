//! The per-connection driver: reads request heads from the connection's
//! input, builds [`Request`] values, answers malformed input with status
//! responses, and decides when the connection takes no more requests.
use vstd::prelude::*;
use vstd::string::StringSliceAdditionalSpecFns;

use crate::bytes::{bytes_of, contains, contains_seq, find, is_ascii_bytes, lower, str_bytes,
    sub_vec, to_lower_vec, trim, trim_vec};
use crate::common::{spec_parse_header, spec_method_matches, Header, HeaderView, HTTPVersion,
    Method, StatusCode};
use crate::numbers::{after_sign, dec_accepts, dec_val, parse_dec_u64};
use crate::readers::ByteReader;
use crate::request::{new_request, spec_body_span, spec_connection_upgrade, spec_content_length,
    spec_expects_continue, Request, RequestCreationError};
use crate::response::{first_field, headers_view, Response};
use crate::sequential::SequentialWriterBuilder;

verus! {

/// The position of the first `\r\n` pair in `s`.
pub open spec fn find_crlf(s: Seq<u8>) -> Option<int>
    decreases s.len(),
{
    if s.len() < 2 {
        None
    } else if s[0] == 13 && s[1] == 10 {
        Some(0)
    } else {
        match find_crlf(s.drop_first()) {
            None => None,
            Some(j) => Some(j + 1),
        }
    }
}

/// `find_crlf` names exactly the first pair.
pub proof fn lemma_find_crlf_at(s: Seq<u8>, i: int)
    requires
        0 <= i,
        i + 1 < s.len(),
        s[i] == 13 && s[i + 1] == 10,
        forall|k: int| 0 <= k < i ==> !(s[k] == 13 && #[trigger] s[k + 1] == 10),
    ensures
        find_crlf(s) == Some(i),
    decreases s.len(),
{
    if i > 0 {
        assert forall|k: int| 0 <= k < i - 1 implies !(s.drop_first()[k] == 13
            && #[trigger] s.drop_first()[k + 1] == 10) by {
            assert(s.drop_first()[k] == s[k + 1]);
            assert(s.drop_first()[k + 1] == s[k + 2]);
            assert(!(s[k + 1] == 13 && s[k + 1 + 1] == 10));
        }
        lemma_find_crlf_at(s.drop_first(), i - 1);
    }
}

/// Without a pair there is nothing for `find_crlf` to name.
pub proof fn lemma_find_crlf_none(s: Seq<u8>)
    requires
        forall|k: int| 0 <= k && k + 1 < s.len() ==> !(s[k] == 13 && #[trigger] s[k + 1] == 10),
    ensures
        find_crlf(s) is None,
    decreases s.len(),
{
    if s.len() >= 2 {
        assert forall|k: int| 0 <= k && k + 1 < s.drop_first().len() implies !(s.drop_first()[k]
            == 13 && #[trigger] s.drop_first()[k + 1] == 10) by {
            assert(s.drop_first()[k] == s[k + 1]);
            assert(s.drop_first()[k + 1] == s[k + 2]);
            assert(!(s[k + 1] == 13 && s[k + 1 + 1] == 10));
        }
        lemma_find_crlf_none(s.drop_first());
        assert(!(s[0int] == 13 && s[0int + 1] == 10));
    }
}

/// An `HTTP/<major>.<minor>` token: everything before the first `/` is
/// ignored, and the two numbers after it, split at the first `.`, must
/// read as small decimal numbers.
pub open spec fn spec_http_version(t: Seq<u8>) -> Option<HTTPVersion> {
    match find(t, 47) {
        None => None,
        Some(i) => {
            let after = t.skip(i + 1);
            match find(after, 46) {
                None => None,
                Some(j) => {
                    let major = after.take(j);
                    let minor = after.skip(j + 1);
                    if dec_accepts(major) && dec_val(after_sign(major)) <= 255 && dec_accepts(
                        minor,
                    ) && dec_val(after_sign(minor)) <= 255 {
                        Some(
                            HTTPVersion(
                                dec_val(after_sign(major)) as u8,
                                dec_val(after_sign(minor)) as u8,
                            ),
                        )
                    } else {
                        None
                    }
                },
            }
        },
    }
}

/// A parsed request line: the method token, the target, the version.
pub struct RequestLine {
    pub method_token: Seq<u8>,
    pub path: Seq<u8>,
    pub version: HTTPVersion,
}

/// The request line `<method> <target> <version>`: the first three
/// space-separated tokens, of which the first must be an ASCII method
/// token and the third a version token.
pub open spec fn spec_request_line(t: Seq<u8>) -> Option<RequestLine> {
    match find(t, 32) {
        None => None,
        Some(i1) => {
            let rest1 = t.skip(i1 + 1);
            match find(rest1, 32) {
                None => None,
                Some(i2) => {
                    let path = rest1.take(i2);
                    let rest2 = rest1.skip(i2 + 1);
                    let vtok = match find(rest2, 32) {
                        None => rest2,
                        Some(i3) => rest2.take(i3),
                    };
                    if is_ascii_bytes(t.take(i1)) {
                        match spec_http_version(vtok) {
                            None => None,
                            Some(v) => Some(
                                RequestLine { method_token: t.take(i1), path, version: v },
                            ),
                        }
                    } else {
                        None
                    }
                },
            }
        },
    }
}

/// Parses an `HTTP/1.1`-style token.
pub fn parse_http_version(version: &Vec<u8>) -> (r: Result<HTTPVersion, ()>)
    ensures
        match r {
            Ok(v) => spec_http_version(version@) == Some(v),
            Err(_) => spec_http_version(version@) is None,
        },
{
    let slash = match crate::bytes::find_first(version, 47) {
        Some(i) => i,
        None => {
            return Err(());
        },
    };
    let vlen = version.len();
    let after = sub_vec(version, slash + 1, vlen);
    proof {
        assert(after@ =~= version@.skip(slash + 1));
    }
    let dot = match crate::bytes::find_first(&after, 46) {
        Some(i) => i,
        None => {
            return Err(());
        },
    };
    let alen = after.len();
    let major_b = sub_vec(&after, 0, dot);
    let minor_b = sub_vec(&after, dot + 1, alen);
    proof {
        assert(major_b@ =~= after@.take(dot as int));
        assert(minor_b@ =~= after@.skip(dot + 1));
    }
    let major = match parse_dec_u64(&major_b) {
        Some(n) => {
            if n <= 255 {
                n as u8
            } else {
                return Err(());
            }
        },
        None => {
            return Err(());
        },
    };
    let minor = match parse_dec_u64(&minor_b) {
        Some(n) => {
            if n <= 255 {
                n as u8
            } else {
                return Err(());
            }
        },
        None => {
            return Err(());
        },
    };
    Ok(HTTPVersion(major, minor))
}

/// Parses the request line of the request, eg. `GET / HTTP/1.1`.
pub fn parse_request_line(line: &Vec<u8>) -> (r: Result<(Method, Vec<u8>, HTTPVersion), ()>)
    ensures
        match r {
            Ok(p) => {
                &&& spec_request_line(line@) matches Some(rl)
                &&& spec_method_matches(rl.method_token, p.0)
                &&& p.1@ == rl.path
                &&& p.2 == rl.version
            },
            Err(_) => spec_request_line(line@) is None,
        },
{
    let llen = line.len();
    let i1 = match crate::bytes::find_first(line, 32) {
        Some(i) => i,
        None => {
            return Err(());
        },
    };
    let rest1 = sub_vec(line, i1 + 1, llen);
    proof {
        assert(rest1@ =~= line@.skip(i1 + 1));
    }
    let i2 = match crate::bytes::find_first(&rest1, 32) {
        Some(i) => i,
        None => {
            return Err(());
        },
    };
    let r1len = rest1.len();
    let path = sub_vec(&rest1, 0, i2);
    let rest2 = sub_vec(&rest1, i2 + 1, r1len);
    proof {
        assert(path@ =~= rest1@.take(i2 as int));
        assert(rest2@ =~= rest1@.skip(i2 + 1));
    }
    let r2len = rest2.len();
    let vtok = match crate::bytes::find_first(&rest2, 32) {
        Some(i3) => {
            let v = sub_vec(&rest2, 0, i3);
            proof {
                assert(v@ =~= rest2@.take(i3 as int));
            }
            v
        },
        None => rest2,
    };
    let method_b = sub_vec(line, 0, i1);
    proof {
        assert(method_b@ =~= line@.take(i1 as int));
    }
    let method = match Method::parse(&method_b) {
        Some(m) => m,
        None => {
            return Err(());
        },
    };
    let version = match parse_http_version(&vtok) {
        Ok(v) => v,
        Err(_) => {
            return Err(());
        },
    };
    Ok((method, path, version))
}

/// One parsed request head: the request line's parts, the headers, and
/// how many input bytes the head spans.
pub struct ParsedHead {
    pub line: RequestLine,
    pub headers: Seq<HeaderView>,
    pub consumed: int,
}

/// How reading a request head from the input can end.
pub enum HeadParse {
    /// The input ended, or a line was not ASCII: the connection closes
    /// silently.
    Silent,
    /// The request line did not parse: the connection answers `400` and
    /// closes, since the next request's start is unknown.
    BadRequestLine,
    /// A header line did not parse — no colon, or not ASCII: the
    /// connection answers `400` with the request's version and closes.
    BadHeader(HTTPVersion),
    /// A complete request head.
    Head(ParsedHead),
}

/// How reading the header block can end.
pub enum HeaderBlockParse {
    /// The input ended before the block did.
    Silent,
    /// A line had no colon, or was not all ASCII.
    Bad,
    /// The headers before the empty line, and the bytes they span.
    Done(Seq<HeaderView>, int),
}

/// The header block at the front of `s`: header lines up to and
/// including an empty line. A line that does not read as a header —
/// no colon, or bytes outside ASCII — is rejected, not passed over.
pub open spec fn spec_header_block(s: Seq<u8>) -> HeaderBlockParse
    decreases s.len(),
{
    match find_crlf(s) {
        None => HeaderBlockParse::Silent,
        Some(i) => {
            if !(0 <= i && i + 2 <= s.len()) {
                HeaderBlockParse::Silent
            } else if i == 0 {
                HeaderBlockParse::Done(Seq::empty(), 2)
            } else {
                match spec_parse_header(trim(s.take(i))) {
                    None => HeaderBlockParse::Bad,
                    Some(h) => match spec_header_block(s.skip(i + 2)) {
                        HeaderBlockParse::Silent => HeaderBlockParse::Silent,
                        HeaderBlockParse::Bad => HeaderBlockParse::Bad,
                        HeaderBlockParse::Done(hs, c) => HeaderBlockParse::Done(
                            seq![h] + hs,
                            i + 2 + c,
                        ),
                    },
                }
            }
        },
    }
}

/// The request head at the front of `s`: a request line, then the header
/// block.
pub open spec fn spec_read_head(s: Seq<u8>) -> HeadParse {
    match find_crlf(s) {
        None => HeadParse::Silent,
        Some(i) => {
            if !(0 <= i && i + 2 <= s.len()) {
                HeadParse::Silent
            } else if !is_ascii_bytes(s.take(i)) {
                HeadParse::Silent
            } else {
                match spec_request_line(trim(s.take(i))) {
                    None => HeadParse::BadRequestLine,
                    Some(rl) => match spec_header_block(s.skip(i + 2)) {
                        HeaderBlockParse::Silent => HeadParse::Silent,
                        HeaderBlockParse::Bad => HeadParse::BadHeader(rl.version),
                        HeaderBlockParse::Done(hs, c) => HeadParse::Head(
                            ParsedHead { line: rl, headers: hs, consumed: i + 2 + c },
                        ),
                    },
                }
            }
        },
    }
}

/// Whether this request is the connection's last: the client asked to
/// close or to upgrade, or it speaks HTTP/1.0 without asking to keep the
/// connection alive.
pub open spec fn spec_closes_after(hs: Seq<HeaderView>, ver: HTTPVersion) -> bool {
    match first_field(hs, bytes_of("Connection"@)) {
        Some(h) => {
            if contains_seq(lower(h.value), bytes_of("close"@)) {
                true
            } else if contains_seq(lower(h.value), bytes_of("upgrade"@)) {
                true
            } else if !contains_seq(lower(h.value), bytes_of("keep-alive"@)) && ver
                == HTTPVersion(1, 0) {
                true
            } else {
                false
            }
        },
        None => ver == HTTPVersion(1, 0),
    }
}

/// A `ClientConnection` drives one connection: it holds the input bytes
/// received on the socket and the write sequencer assembling the wire,
/// and yields one [`Request`] per parsed head.
pub struct ClientConnection {
    /// The bytes received on the connection, being consumed in order.
    pub source: ByteReader,
    /// The sequencer for the responses, keeping the wire in slot order.
    pub sink: SequentialWriterBuilder,
    /// The address of the peer, as text.
    pub remote_addr: Vec<u8>,
    /// True if the connection goes through TLS.
    pub secure: bool,
    /// Set once it is known that no more requests will come.
    pub no_more_requests: bool,
}

impl ClientConnection {
    pub open spec fn well_formed(&self) -> bool {
        self.source.well_formed() && self.sink.well_formed()
    }

    /// The bytes written to the wire so far, in request order.
    pub open spec fn wire(&self) -> Seq<u8> {
        self.sink.wire@
    }

    /// A connection over the bytes received from one client.
    pub fn new(input: Vec<u8>, remote_addr: Vec<u8>, secure: bool) -> (r: ClientConnection)
        ensures
            r.well_formed(),
            r.source.remaining() == input@,
            r.wire() == Seq::<u8>::empty(),
            r.remote_addr == remote_addr,
            r.secure == secure,
            !r.no_more_requests,
    {
        ClientConnection {
            source: ByteReader::new(input),
            sink: SequentialWriterBuilder::new(Vec::new()),
            remote_addr,
            secure,
            no_more_requests: false,
        }
    }

    /// Feeds newly received bytes to the connection: they line up after
    /// whatever input is still unread, so a socket can be drained into
    /// the driver piece by piece.
    pub fn feed(&mut self, more: &Vec<u8>)
        requires
            old(self).well_formed(),
        ensures
            final(self).well_formed(),
            final(self).source.remaining() == old(self).source.remaining() + more@,
            final(self).sink == old(self).sink,
            final(self).remote_addr == old(self).remote_addr,
            final(self).secure == old(self).secure,
            final(self).no_more_requests == old(self).no_more_requests,
    {
        self.source.append(more);
    }

    /// Reads the next line: everything up to the first `\r\n`, which is
    /// consumed with it. Fails only when the input ends before a line
    /// does; the connection is then done.
    fn read_next_line(&mut self) -> (r: Result<Vec<u8>, ()>)
        requires
            old(self).well_formed(),
        ensures
            final(self).well_formed(),
            final(self).sink == old(self).sink,
            final(self).remote_addr == old(self).remote_addr,
            final(self).secure == old(self).secure,
            final(self).no_more_requests == old(self).no_more_requests,
            final(self).source.data == old(self).source.data,
            final(self).source.remaining().len() <= old(self).source.remaining().len(),
            match r {
                Ok(line) => {
                    &&& find_crlf(old(self).source.remaining()) matches Some(i)
                    &&& 0 <= i
                    &&& i + 2 <= old(self).source.remaining().len()
                    &&& line@ == old(self).source.remaining().take(i)
                    &&& final(self).source.remaining() == old(self).source.remaining().skip(i + 2)
                    &&& final(self).source.remaining().len() == old(
                        self,
                    ).source.remaining().len() - i - 2
                },
                Err(_) => find_crlf(old(self).source.remaining()) is None,
            },
    {
        let ghost rem = self.source.remaining();
        let pos0 = self.source.pos;
        let len = self.source.data.len();
        let mut i: usize = pos0;
        while i < len && i + 1 < len && !(self.source.data[i] == 13 && self.source.data[i + 1]
            == 10)
            invariant
                pos0 <= i <= len,
                len == self.source.data@.len(),
                self == old(self),
                rem == self.source.remaining(),
                pos0 == self.source.pos,
                forall|k: int|
                    0 <= k < i - pos0 ==> !(rem[k] == 13 && #[trigger] rem[k + 1] == 10),
            decreases len - i,
        {
            proof {
                assert(rem[i - pos0] == self.source.data@[i as int]);
                if i + 1 < len {
                    assert(rem[i - pos0 + 1] == self.source.data@[i + 1]);
                }
            }
            i = i + 1;
        }
        if len - i <= 1 {
            // The input ended before a line did.
            proof {
                assert forall|k: int| 0 <= k && k + 1 < rem.len() implies !(rem[k] == 13
                    && #[trigger] rem[k + 1] == 10) by {
                    if k < i - pos0 {
                    } else {
                        assert(rem[k] == self.source.data@[pos0 + k]);
                        assert(rem[k + 1] == self.source.data@[pos0 + k + 1]);
                    }
                }
                lemma_find_crlf_none(rem);
            }
            self.source.pos = len;
            return Err(());
        }
        proof {
            assert(rem[i - pos0] == self.source.data@[i as int]);
            assert(rem[i - pos0 + 1] == self.source.data@[i + 1]);
            lemma_find_crlf_at(rem, i - pos0);
        }
        let line = sub_vec(&self.source.data, pos0, i);
        proof {
            assert(line@ =~= rem.take(i - pos0));
        }
        self.source.pos = i + 2;
        proof {
            assert(self.source.remaining() =~= rem.skip(i - pos0 + 2));
        }
        Ok(line)
    }

    /// Answers a malformed or refused request: a fresh write slot gets
    /// an empty response with this status, and is finished at once.
    fn refuse(&mut self, status: u16, version: HTTPVersion, do_not_send_body: bool)
        requires
            old(self).well_formed(),
            old(self).sink.handed < usize::MAX,
        ensures
            final(self).well_formed(),
            final(self).source == old(self).source,
            final(self).remote_addr == old(self).remote_addr,
            final(self).secure == old(self).secure,
            final(self).no_more_requests == old(self).no_more_requests,
            final(self).sink.handed == old(self).sink.handed + 1,
            final(self).wire().len() >= old(self).wire().len(),
            final(self).wire().take(old(self).wire().len() as int) == old(self).wire(),
            old(self).sink.committed == old(self).sink.handed ==> exists|d: crate::httpdate::HTTPDate|
                final(self).wire() == old(self).wire() + #[trigger] crate::response::spec_print(
                    Seq::<u8>::empty(),
                    status,
                    Seq::<HeaderView>::empty(),
                    Some(0usize),
                    version,
                    Seq::<HeaderView>::empty(),
                    do_not_send_body,
                    None,
                    d,
                ),
    {
        let writer = self.sink.next();
        self.answer_on_slot(writer, status, version, do_not_send_body);
    }

    /// Prints an empty response with this status into the given slot and
    /// finishes it. When the slot holds the turn, the bytes reach the
    /// wire at once.
    fn answer_on_slot(
        &mut self,
        writer: crate::sequential::SequentialWriter,
        status: u16,
        version: HTTPVersion,
        do_not_send_body: bool,
    )
        requires
            old(self).well_formed(),
            writer.buffer@ == Seq::<u8>::empty(),
            old(self).sink.committed <= writer.index,
            old(self).sink.handed == writer.index + 1,
            !old(self).sink.finished@.contains_key(writer.index as nat),
        ensures
            final(self).well_formed(),
            final(self).source == old(self).source,
            final(self).remote_addr == old(self).remote_addr,
            final(self).secure == old(self).secure,
            final(self).no_more_requests == old(self).no_more_requests,
            final(self).sink.handed == old(self).sink.handed,
            final(self).wire().len() >= old(self).wire().len(),
            final(self).wire().take(old(self).wire().len() as int) == old(self).wire(),
            old(self).sink.committed == writer.index ==> exists|d: crate::httpdate::HTTPDate|
                final(self).wire() == old(self).wire() + #[trigger] crate::response::spec_print(
                    Seq::<u8>::empty(),
                    status,
                    Seq::<HeaderView>::empty(),
                    Some(0usize),
                    version,
                    Seq::<HeaderView>::empty(),
                    do_not_send_body,
                    None,
                    d,
                ),
    {
        let mut writer = writer;
        let response = Response::new_empty(StatusCode(status));
        let empty_headers: Vec<Header> = Vec::new();
        let bytes = response.raw_print(version, &empty_headers, do_not_send_body, None);
        proof {
            assert(headers_view(empty_headers@) =~= Seq::<HeaderView>::empty());
        }
        writer.write(&bytes);
        let ghost idx = writer.index;
        let ghost buf = writer.buffer@;
        self.sink.finish(writer);
        proof {
            if old(self).sink.committed == idx {
                assert(self.sink.committed == idx + 1);
                assert(self.sink.segments@[idx as int] == buf);
                assert forall|t: int| 0 <= t < idx implies old(self).sink.segments@[t]
                    == self.sink.segments@[t] by {
                    assert(self.sink.segments@.take(idx as int)[t] == self.sink.segments@[t]);
                }
                crate::sequential::lemma_concat_prefix_same(
                    old(self).sink.segments@,
                    self.sink.segments@,
                    idx as int,
                );
                assert(self.sink.wire@ == crate::sequential::concat_prefix(
                    self.sink.segments@,
                    idx + 1,
                ));
                assert(buf =~= bytes@);
                assert(self.wire() == old(self).wire() + bytes@);
                let d = choose|d: crate::httpdate::HTTPDate|
                    bytes@ == #[trigger] crate::response::spec_print(
                        Seq::<u8>::empty(),
                        status,
                        Seq::<HeaderView>::empty(),
                        Some(0usize),
                        version,
                        Seq::<HeaderView>::empty(),
                        do_not_send_body,
                        None,
                        d,
                    );
            }
        }
    }

    /// Finishes a slot with nothing in it, releasing its place in the
    /// response order. When the slot holds the turn, the wire does not
    /// change.
    fn release_slot_empty(&mut self, writer: crate::sequential::SequentialWriter)
        requires
            old(self).well_formed(),
            writer.buffer@ == Seq::<u8>::empty(),
            old(self).sink.committed <= writer.index,
            old(self).sink.handed == writer.index + 1,
            !old(self).sink.finished@.contains_key(writer.index as nat),
        ensures
            final(self).well_formed(),
            final(self).source == old(self).source,
            final(self).remote_addr == old(self).remote_addr,
            final(self).secure == old(self).secure,
            final(self).no_more_requests == old(self).no_more_requests,
            final(self).sink.handed == old(self).sink.handed,
            final(self).wire().len() >= old(self).wire().len(),
            final(self).wire().take(old(self).wire().len() as int) == old(self).wire(),
            old(self).sink.committed == writer.index ==> final(self).wire() == old(self).wire(),
    {
        let ghost idx = writer.index;
        let ghost buf = writer.buffer@;
        self.sink.finish(writer);
        proof {
            if old(self).sink.committed == idx {
                assert(self.sink.committed == idx + 1);
                assert(self.sink.segments@[idx as int] == buf);
                assert forall|t: int| 0 <= t < idx implies old(self).sink.segments@[t]
                    == self.sink.segments@[t] by {
                    assert(self.sink.segments@.take(idx as int)[t] == self.sink.segments@[t]);
                }
                crate::sequential::lemma_concat_prefix_same(
                    old(self).sink.segments@,
                    self.sink.segments@,
                    idx as int,
                );
                assert(self.sink.wire@ == crate::sequential::concat_prefix(
                    self.sink.segments@,
                    idx + 1,
                ));
                assert(self.wire() =~= old(self).wire() + buf);
                assert(self.wire() =~= old(self).wire());
            }
        }
    }
}

/// A header block parsed further in, shifted behind headers already
/// taken and bytes already consumed.
pub open spec fn hb_shift(o: HeaderBlockParse, hs0: Seq<HeaderView>, c0: int) -> HeaderBlockParse {
    match o {
        HeaderBlockParse::Silent => HeaderBlockParse::Silent,
        HeaderBlockParse::Bad => HeaderBlockParse::Bad,
        HeaderBlockParse::Done(hs, c) => HeaderBlockParse::Done(hs0 + hs, c0 + c),
    }
}

/// True when `p` stands at the front of `w`.
pub open spec fn spec_is_wire_prefix(w: Seq<u8>, p: Seq<u8>) -> bool {
    p.len() <= w.len() && w.take(p.len() as int) == p
}

/// The notice a request with an unsupported version is answered with:
/// a 505 carrying a short text body, printed for HTTP/1.1.
pub open spec fn spec_version_notice(d: crate::httpdate::HTTPDate) -> Seq<u8> {
    crate::response::spec_print(
        "This server only supports HTTP versions 1.0 and 1.1".spec_bytes(),
        505,
        seq![
            HeaderView {
                field: bytes_of("Content-Type"@),
                value: bytes_of("text/plain; charset=UTF-8"@),
            },
        ],
        Some("This server only supports HTTP versions 1.0 and 1.1".spec_bytes().len() as usize),
        HTTPVersion(1, 1),
        Seq::<HeaderView>::empty(),
        false,
        None,
        d,
    )
}

/// A recorded answer stays at the front of a wire that only grew: the
/// 500-then-notice prefix seen earlier is still there afterwards.
proof fn lemma_notice_prefix_carries(h: ParsedHead, base: Seq<u8>, w1: Seq<u8>, w2: Seq<u8>)
    requires
        exists|d1: crate::httpdate::HTTPDate, d2: crate::httpdate::HTTPDate, b: bool|
            #![trigger crate::response::spec_print(
                Seq::<u8>::empty(),
                500,
                Seq::<HeaderView>::empty(),
                Some(0usize),
                h.line.version,
                h.headers,
                b,
                None,
                d1,
            ), spec_version_notice(d2)]
            spec_is_wire_prefix(
                w1,
                base + crate::response::spec_print(
                    Seq::<u8>::empty(),
                    500,
                    Seq::<HeaderView>::empty(),
                    Some(0usize),
                    h.line.version,
                    h.headers,
                    b,
                    None,
                    d1,
                ) + spec_version_notice(d2),
            ),
        w1.len() <= w2.len(),
        w2.take(w1.len() as int) == w1,
    ensures
        exists|d1: crate::httpdate::HTTPDate, d2: crate::httpdate::HTTPDate, b: bool|
            #![trigger crate::response::spec_print(
                Seq::<u8>::empty(),
                500,
                Seq::<HeaderView>::empty(),
                Some(0usize),
                h.line.version,
                h.headers,
                b,
                None,
                d1,
            ), spec_version_notice(d2)]
            spec_is_wire_prefix(
                w2,
                base + crate::response::spec_print(
                    Seq::<u8>::empty(),
                    500,
                    Seq::<HeaderView>::empty(),
                    Some(0usize),
                    h.line.version,
                    h.headers,
                    b,
                    None,
                    d1,
                ) + spec_version_notice(d2),
            ),
{
    let (d1, d2, b) = choose|
        d1: crate::httpdate::HTTPDate,
        d2: crate::httpdate::HTTPDate,
        b: bool,
    |
        #![trigger crate::response::spec_print(
            Seq::<u8>::empty(),
            500,
            Seq::<HeaderView>::empty(),
            Some(0usize),
            h.line.version,
            h.headers,
            b,
            None,
            d1,
        ), spec_version_notice(d2)]
        spec_is_wire_prefix(
            w1,
            base + crate::response::spec_print(
                Seq::<u8>::empty(),
                500,
                Seq::<HeaderView>::empty(),
                Some(0usize),
                h.line.version,
                h.headers,
                b,
                None,
                d1,
            ) + spec_version_notice(d2),
        );
    let p = base + crate::response::spec_print(
        Seq::<u8>::empty(),
        500,
        Seq::<HeaderView>::empty(),
        Some(0usize),
        h.line.version,
        h.headers,
        b,
        None,
        d1,
    ) + spec_version_notice(d2);
    assert(w2.take(p.len() as int) =~= w2.take(w1.len() as int).take(p.len() as int));
    assert(spec_is_wire_prefix(w2, p));
}

/// What reading one request head from the input produced.
enum HeadRead {
    /// The input ended before the head did: close silently.
    Silent,
    /// The request line did not parse.
    BadLine,
    /// A header line did not parse; the request line's version is kept
    /// for the refusal.
    BadHdr(HTTPVersion),
    /// A complete head: method, target, version, headers.
    Got(Method, Vec<u8>, HTTPVersion, Vec<Header>),
}

impl ClientConnection {
    /// Reads one request head — the request line, then the headers up to
    /// the empty line — leaving the input on the first body byte.
    #[verifier::rlimit(100)]
    #[verifier::loop_isolation(false)]
    fn read_head(&mut self) -> (r: HeadRead)
        requires
            old(self).well_formed(),
        ensures
            final(self).well_formed(),
            final(self).sink == old(self).sink,
            final(self).secure == old(self).secure,
            final(self).remote_addr == old(self).remote_addr,
            final(self).no_more_requests == old(self).no_more_requests,
            final(self).source.data == old(self).source.data,
            final(self).source.remaining().len() <= old(self).source.remaining().len(),
            match spec_read_head(old(self).source.remaining()) {
                HeadParse::Silent => r is Silent,
                HeadParse::BadRequestLine => r is BadLine,
                HeadParse::BadHeader(v) => r matches HeadRead::BadHdr(v2) && v2 == v,
                HeadParse::Head(h) => {
                    &&& r matches HeadRead::Got(m, p, ver, hdrs)
                    &&& spec_method_matches(h.line.method_token, m)
                    &&& p@ == h.line.path
                    &&& ver == h.line.version
                    &&& headers_view(hdrs@) == h.headers
                    &&& final(self).source.remaining() == old(self).source.remaining().skip(
                        h.consumed,
                    )
                    &&& final(self).source.remaining().len() <= old(
                        self,
                    ).source.remaining().len() - 4
                },
            },
    {
        let ghost rem0 = self.source.remaining();
        // The request line.
        let line = match self.read_next_line() {
            Ok(l) => l,
            Err(_) => {
                return HeadRead::Silent;
            },
        };
        if !crate::bytes::is_ascii_vec(&line) {
            // A line outside ASCII cannot start a request; the
            // connection closes silently.
            return HeadRead::Silent;
        }
        let ghost i = find_crlf(rem0).unwrap();
        let trimmed = trim_vec(&line);
        let parsed = match parse_request_line(&trimmed) {
            Ok(p) => p,
            Err(_) => {
                return HeadRead::BadLine;
            },
        };
        let (method, path, version) = parsed;
        let ghost rl = spec_request_line(trim(rem0.take(i))).unwrap();
        // The headers, up to the empty line.
        let ghost srem1 = rem0.skip(i + 2);
        let mut headers: Vec<Header> = Vec::new();
        let ghost mut c0: int = 0;
        proof {
            assert(headers_view(headers@) =~= Seq::<HeaderView>::empty());
            assert(srem1.skip(0) =~= srem1);
        }
        loop
            invariant
                self.well_formed(),
                self.sink == old(self).sink,
                self.secure == old(self).secure,
                self.remote_addr == old(self).remote_addr,
                self.no_more_requests == old(self).no_more_requests,
                self.source.data == old(self).source.data,
                0 <= c0,
                self.source.remaining() == srem1.skip(c0),
                self.source.remaining().len() == srem1.len() - c0,
                spec_header_block(srem1) == hb_shift(
                    spec_header_block(self.source.remaining()),
                    headers_view(headers@),
                    c0,
                ),
            decreases self.source.remaining().len(),
        {
            let ghost cur = self.source.remaining();
            let hline = match self.read_next_line() {
                Ok(l) => l,
                Err(_) => {
                    return HeadRead::Silent;
                },
            };
            let ghost hi = find_crlf(cur).unwrap();
            if hline.len() == 0 {
                proof {
                    assert(hi == 0);
                    assert(spec_header_block(cur) == HeaderBlockParse::Done(
                        Seq::<HeaderView>::empty(),
                        2,
                    ));
                    assert(headers_view(headers@) + Seq::<HeaderView>::empty() =~= headers_view(
                        headers@,
                    ));
                    assert(self.source.remaining() =~= srem1.skip(c0 + 2));
                    c0 = c0 + 2;
                }
                break ;
            }
            let htrimmed = trim_vec(&hline);
            let header = match Header::parse(&htrimmed) {
                Some(h) => h,
                None => {
                    // A malformed header line.
                    proof {
                        assert(spec_header_block(cur) == HeaderBlockParse::Bad);
                        assert(spec_header_block(srem1) == HeaderBlockParse::Bad);
                    }
                    return HeadRead::BadHdr(version);
                },
            };
            let ghost hv0 = headers_view(headers@);
            headers.push(header);
            proof {
                assert(headers_view(headers@) =~= hv0.push(headers@.last()@));
                let hview = spec_parse_header(trim(cur.take(hi))).unwrap();
                assert(headers@.last()@ == hview);
                assert(hv0.push(hview) =~= hv0 + seq![hview]);
                assert(self.source.remaining() =~= srem1.skip(c0 + hi + 2));
                assert(cur.skip(hi + 2) == self.source.remaining());
                match spec_header_block(cur.skip(hi + 2)) {
                    HeaderBlockParse::Silent => {},
                    HeaderBlockParse::Bad => {},
                    HeaderBlockParse::Done(hs, c) => {
                        assert(spec_header_block(cur) == HeaderBlockParse::Done(
                            seq![hview] + hs,
                            hi + 2 + c,
                        ));
                        assert(hv0 + (seq![hview] + hs) =~= (hv0 + seq![hview]) + hs);
                    },
                }
                c0 = c0 + hi + 2;
            }
        }
        proof {
            assert(spec_header_block(srem1) == HeaderBlockParse::Done(
                headers_view(headers@),
                c0,
            ));
            assert(spec_read_head(rem0) == HeadParse::Head(
                ParsedHead { line: rl, headers: headers_view(headers@), consumed: i + 2 + c0 },
            ));
            assert(self.source.remaining() =~= rem0.skip(i + 2 + c0));
        }
        HeadRead::Got(method, path, version, headers)
    }

    /// Answers a request whose HTTP version this server does not speak:
    /// the abandoned request's empty `500` goes out through its own
    /// slot, then a `505` notice with a short text body follows on a
    /// fresh slot.
    #[verifier::rlimit(100)]
    fn answer_unsupported(&mut self, rq: Request)
        requires
            old(self).well_formed(),
            old(self).sink.handed < usize::MAX - 1,
            rq.response_writer.buffer@ == Seq::<u8>::empty(),
            rq.response_writer.index + 1 == old(self).sink.handed,
            old(self).sink.committed <= rq.response_writer.index,
            !old(self).sink.finished@.contains_key(rq.response_writer.index as nat),
        ensures
            final(self).well_formed(),
            final(self).source == old(self).source,
            final(self).remote_addr == old(self).remote_addr,
            final(self).secure == old(self).secure,
            final(self).no_more_requests == old(self).no_more_requests,
            final(self).sink.handed == old(self).sink.handed + 1,
            final(self).wire().len() >= old(self).wire().len(),
            final(self).wire().take(old(self).wire().len() as int) == old(self).wire(),
            old(self).sink.committed == rq.response_writer.index ==> exists|
                d1: crate::httpdate::HTTPDate,
                d2: crate::httpdate::HTTPDate,
                b: bool,
            |
                #![trigger crate::response::spec_print(
                    Seq::<u8>::empty(),
                    500,
                    Seq::<HeaderView>::empty(),
                    Some(0usize),
                    rq.http_version,
                    headers_view(rq.headers@),
                    b,
                    None,
                    d1,
                ), spec_version_notice(d2)]
                spec_is_wire_prefix(
                    final(self).wire(),
                    old(self).wire() + crate::response::spec_print(
                        Seq::<u8>::empty(),
                        500,
                        Seq::<HeaderView>::empty(),
                        Some(0usize),
                        rq.http_version,
                        headers_view(rq.headers@),
                        b,
                        None,
                        d1,
                    ) + spec_version_notice(d2),
                ),
    {
        let ghost ver500 = rq.http_version;
        let ghost hdrs500 = headers_view(rq.headers@);
        let ghost head500 = rq.method is Head;
        let w500 = rq.abandon();
        let ghost buf500 = w500.buffer@;
        self.sink.finish(w500);
        let ghost wire_mid = self.wire();
        let mut w505 = self.sink.next();
        let response = Response::from_string(
            "This server only supports HTTP versions 1.0 and 1.1",
        ).with_status_code(StatusCode(505));
        let empty_headers: Vec<Header> = Vec::new();
        let bytes = response.raw_print(HTTPVersion(1, 1), &empty_headers, false, None);
        w505.write(&bytes);
        let ghost buf505 = w505.buffer@;
        self.sink.finish(w505);
        proof {
            let d1 = choose|d1: crate::httpdate::HTTPDate|
                buf500 == #[trigger] crate::response::spec_print(
                    Seq::<u8>::empty(),
                    500,
                    Seq::<HeaderView>::empty(),
                    Some(0usize),
                    ver500,
                    hdrs500,
                    head500,
                    None,
                    d1,
                );
            assert(headers_view(empty_headers@) =~= Seq::<HeaderView>::empty());
            let d2 = choose|d2: crate::httpdate::HTTPDate|
                bytes@ == #[trigger] crate::response::spec_print(
                    response.data@,
                    response.status_code.0,
                    headers_view(response.headers@),
                    response.data_length,
                    HTTPVersion(1, 1),
                    headers_view(empty_headers@),
                    false,
                    None,
                    d2,
                );
            assert(buf505 =~= bytes@);
            assert(buf505 == spec_version_notice(d2));
            if old(self).sink.committed == rq.response_writer.index {
                assert(wire_mid == old(self).wire() + buf500);
                assert(self.wire() == wire_mid + buf505);
                assert(self.wire() =~= old(self).wire() + buf500 + buf505);
                let p = old(self).wire() + buf500 + buf505;
                assert(self.wire().take(p.len() as int) =~= p);
                assert(spec_is_wire_prefix(self.wire(), p));
            }
            assert(self.wire().take(old(self).wire().len() as int) =~= self.wire().take(
                wire_mid.len() as int,
            ).take(old(self).wire().len() as int));
        }
    }

    /// Blocks on nothing: yields the next request parsed from the input,
    /// or `None` when no more requests will come from this client.
    ///
    /// Malformed input is answered on the wire before the connection
    /// closes: an unreadable request line or header — a header line
    /// outside ASCII among them — gets a `400`, an unsupported
    /// expectation a `417`; an input that simply ends, a request line
    /// that is not ASCII, or a body cut short close silently. A request
    /// with a version above 1.1 is answered with a `500` for the
    /// abandoned request and a `505` notice, and parsing then continues
    /// with the next request.
    #[verifier::rlimit(100)]
    #[verifier::loop_isolation(false)]
    pub fn next(&mut self) -> (r: Option<Request>)
        requires
            old(self).well_formed(),
            old(self).sink.handed + old(self).source.remaining().len() < usize::MAX - 3,
        ensures
            final(self).well_formed(),
            final(self).secure == old(self).secure,
            final(self).remote_addr == old(self).remote_addr,
            old(self).no_more_requests ==> r is None && *final(self) == *old(self),
            !old(self).no_more_requests ==> match spec_read_head(old(self).source.remaining()) {
                HeadParse::Silent => r is None && final(self).sink == old(self).sink,
                HeadParse::BadRequestLine => r is None && final(self).sink.handed == old(
                    self,
                ).sink.handed + 1 && (old(self).sink.committed == old(self).sink.handed
                    ==> exists|d: crate::httpdate::HTTPDate|
                    final(self).wire() == old(self).wire()
                        + #[trigger] crate::response::spec_print(
                        Seq::<u8>::empty(),
                        400,
                        Seq::<HeaderView>::empty(),
                        Some(0usize),
                        HTTPVersion(1, 1),
                        Seq::<HeaderView>::empty(),
                        false,
                        None,
                        d,
                    )),
                HeadParse::BadHeader(v) => r is None && final(self).sink.handed == old(
                    self,
                ).sink.handed + 1 && (old(self).sink.committed == old(self).sink.handed
                    ==> exists|d: crate::httpdate::HTTPDate|
                    final(self).wire() == old(self).wire()
                        + #[trigger] crate::response::spec_print(
                        Seq::<u8>::empty(),
                        400,
                        Seq::<HeaderView>::empty(),
                        Some(0usize),
                        v,
                        Seq::<HeaderView>::empty(),
                        false,
                        None,
                        d,
                    )),
                HeadParse::Head(h) => {
                    let after_head = old(self).source.remaining().skip(h.consumed);
                    match spec_expects_continue(h.headers) {
                        None => r is None && final(self).sink.handed == old(self).sink.handed + 1
                            && (old(self).sink.committed == old(self).sink.handed ==> exists|
                            d: crate::httpdate::HTTPDate,
                        |
                            final(self).wire() == old(self).wire()
                                + #[trigger] crate::response::spec_print(
                                Seq::<u8>::empty(),
                                417,
                                Seq::<HeaderView>::empty(),
                                Some(0usize),
                                h.line.version,
                                Seq::<HeaderView>::empty(),
                                true,
                                None,
                                d,
                            )),
                        Some(cont) => {
                            if !spec_connection_upgrade(h.headers) && (spec_content_length(
                                h.headers,
                            ) matches Some(n) && 0 < n <= 1024 && !cont && after_head.len()
                                < n) {
                                r is None && final(self).sink.handed == old(self).sink.handed
                                    + 1 && (old(self).sink.committed == old(self).sink.handed
                                    ==> final(self).wire() == old(self).wire())
                            } else if h.line.version.0 > 1 || (h.line.version.0 == 1
                                && h.line.version.1 > 1) {
                                // The request is answered with a 500 on
                                // its own slot and a 505 notice, and the
                                // driver went on with the input that
                                // follows it.
                                &&& final(self).sink.handed >= old(self).sink.handed + 2
                                &&& (old(self).sink.committed == old(self).sink.handed
                                    ==> exists|
                                    d1: crate::httpdate::HTTPDate,
                                    d2: crate::httpdate::HTTPDate,
                                    b: bool,
                                |
                                    #![trigger crate::response::spec_print(
                                        Seq::<u8>::empty(),
                                        500,
                                        Seq::<HeaderView>::empty(),
                                        Some(0usize),
                                        h.line.version,
                                        h.headers,
                                        b,
                                        None,
                                        d1,
                                    ), spec_version_notice(d2)]
                                    spec_is_wire_prefix(
                                        final(self).wire(),
                                        old(self).wire() + crate::response::spec_print(
                                            Seq::<u8>::empty(),
                                            500,
                                            Seq::<HeaderView>::empty(),
                                            Some(0usize),
                                            h.line.version,
                                            h.headers,
                                            b,
                                            None,
                                            d1,
                                        ) + spec_version_notice(d2),
                                    ))
                            } else {
                                &&& r matches Some(rq)
                                &&& spec_method_matches(h.line.method_token, rq.method)
                                &&& rq.path@ == h.line.path
                                &&& rq.http_version == h.line.version
                                &&& headers_view(rq.headers@) == h.headers
                                &&& rq.secure == old(self).secure
                                &&& rq.remote_addr@ == old(self).remote_addr@
                                &&& rq.must_send_continue == cont
                                &&& rq.body_length == spec_content_length(h.headers)
                                &&& rq.well_formed()
                                &&& rq.data_reader.body() == spec_body_span(
                                    h.headers,
                                    after_head,
                                ).0
                                &&& rq.response_writer.index == old(self).sink.handed
                                &&& rq.response_writer.buffer@ == Seq::<u8>::empty()
                                &&& final(self).no_more_requests == spec_closes_after(
                                    h.headers,
                                    h.line.version,
                                )
                                &&& final(self).sink.handed == old(self).sink.handed + 1
                                &&& final(self).wire() == old(self).wire()
                                &&& (!(rq.data_reader is Malformed)
                                    ==> final(self).source.remaining() == after_head.skip(
                                    spec_body_span(h.headers, after_head).1,
                                ))
                            }
                        },
                    }
                },
            },
    {
        proof {
            reveal_strlit("Connection");
            reveal_strlit("close");
            reveal_strlit("upgrade");
            reveal_strlit("keep-alive");
        }
        if self.no_more_requests {
            return None;
        }
        let ghost rem0 = self.source.remaining();
        let ghost mut first: bool = true;
        loop
            invariant
                self.well_formed(),
                self.secure == old(self).secure,
                self.remote_addr == old(self).remote_addr,
                !self.no_more_requests,
                first ==> *self == *old(self),
                !first ==> (spec_read_head(rem0) matches HeadParse::Head(h) && (h.line.version.0
                    > 1 || (h.line.version.0 == 1 && h.line.version.1 > 1))
                    && spec_expects_continue(h.headers) is Some && !(!spec_connection_upgrade(
                    h.headers,
                ) && (spec_content_length(h.headers) matches Some(n) && 0 < n <= 1024
                    && spec_expects_continue(h.headers) == Some(false) && old(
                    self,
                ).source.remaining().skip(h.consumed).len() < n))
                    && self.sink.handed >= old(self).sink.handed + 2 && (old(self).sink.committed
                    == old(self).sink.handed ==> exists|
                    d1: crate::httpdate::HTTPDate,
                    d2: crate::httpdate::HTTPDate,
                    b: bool,
                |
                    #![trigger crate::response::spec_print(
                        Seq::<u8>::empty(),
                        500,
                        Seq::<HeaderView>::empty(),
                        Some(0usize),
                        h.line.version,
                        h.headers,
                        b,
                        None,
                        d1,
                    ), spec_version_notice(d2)]
                    spec_is_wire_prefix(
                        self.wire(),
                        old(self).wire() + crate::response::spec_print(
                            Seq::<u8>::empty(),
                            500,
                            Seq::<HeaderView>::empty(),
                            Some(0usize),
                            h.line.version,
                            h.headers,
                            b,
                            None,
                            d1,
                        ) + spec_version_notice(d2),
                    ))),
                2 * self.sink.handed + self.source.remaining().len() <= 2 * old(self).sink.handed
                    + old(self).source.remaining().len(),
            decreases self.source.remaining().len(),
        {
            let ghost rem_iter = self.source.remaining();
            let ghost was_first = first;
            let ghost wire_head = self.wire();
            let (method, path, version, headers) = match self.read_head() {
                HeadRead::Silent => {
                    proof {
                        if !was_first && old(self).sink.committed == old(self).sink.handed {
                            match spec_read_head(rem0) {
                                HeadParse::Head(h) => {
                                    assert(self.wire().take(wire_head.len() as int)
                                        =~= wire_head);
                                    lemma_notice_prefix_carries(
                                        h,
                                        old(self).wire(),
                                        wire_head,
                                        self.wire(),
                                    );
                                },
                                _ => {},
                            }
                        }
                    }
                    return None;
                },
                HeadRead::BadLine => {
                    // The next request's start is unknown: answer 400 and
                    // close.
                    self.refuse(400, HTTPVersion(1, 1), false);
                    proof {
                        if !was_first && old(self).sink.committed == old(self).sink.handed {
                            match spec_read_head(rem0) {
                                HeadParse::Head(h) => {
                                    assert(self.wire().take(wire_head.len() as int)
                                        =~= wire_head);
                                    lemma_notice_prefix_carries(
                                        h,
                                        old(self).wire(),
                                        wire_head,
                                        self.wire(),
                                    );
                                },
                                _ => {},
                            }
                        }
                    }
                    return None;
                },
                HeadRead::BadHdr(v) => {
                    // A malformed header: answer 400 and close.
                    self.refuse(400, v, false);
                    proof {
                        if !was_first && old(self).sink.committed == old(self).sink.handed {
                            match spec_read_head(rem0) {
                                HeadParse::Head(h) => {
                                    assert(self.wire().take(wire_head.len() as int)
                                        =~= wire_head);
                                    lemma_notice_prefix_carries(
                                        h,
                                        old(self).wire(),
                                        wire_head,
                                        self.wire(),
                                    );
                                },
                                _ => {},
                            }
                        }
                    }
                    return None;
                },
                HeadRead::Got(m, p, ver, hdrs) => (m, p, ver, hdrs),
            };
            // The slots for this request.
            let writer = self.sink.next();
            let ralen = self.remote_addr.len();
            let remote = sub_vec(&self.remote_addr, 0, ralen);
            proof {
                assert(remote@ =~= self.remote_addr@);
            }
            let ghost before_body = self.source.remaining();
            let rq = match new_request(
                self.secure,
                method,
                path,
                version,
                headers,
                remote,
                &mut self.source,
                writer,
            ) {
                Ok(rq) => rq,
                Err((RequestCreationError::ExpectationFailed, w)) => {
                    // An expectation this server cannot meet: 417, close.
                    self.answer_on_slot(w, 417, version, true);
                    proof {
                        if !was_first && old(self).sink.committed == old(self).sink.handed {
                            match spec_read_head(rem0) {
                                HeadParse::Head(h) => {
                                    assert(self.wire().take(wire_head.len() as int)
                                        =~= wire_head);
                                    lemma_notice_prefix_carries(
                                        h,
                                        old(self).wire(),
                                        wire_head,
                                        self.wire(),
                                    );
                                },
                                _ => {},
                            }
                        }
                    }
                    return None;
                },
                Err((RequestCreationError::CreationIoError, w)) => {
                    // The body was cut short: close silently, releasing
                    // the slot with nothing in it.
                    self.release_slot_empty(w);
                    proof {
                        if !was_first && old(self).sink.committed == old(self).sink.handed {
                            match spec_read_head(rem0) {
                                HeadParse::Head(h) => {
                                    assert(self.wire().take(wire_head.len() as int)
                                        =~= wire_head);
                                    lemma_notice_prefix_carries(
                                        h,
                                        old(self).wire(),
                                        wire_head,
                                        self.wire(),
                                    );
                                },
                                _ => {},
                            }
                        }
                    }
                    return None;
                },
            };
            // Checking the HTTP version.
            if rq.http_version().is_above(1, 1) {
                // The abandoned request answers 500 through its own slot,
                // then a 505 notice follows, and parsing continues.
                let ghost ver500 = rq.http_version;
                let ghost hdrs500 = headers_view(rq.headers@);
                self.answer_unsupported(rq);
                proof {
                    first = false;
                    assert(self.source.remaining().len() <= rem_iter.len() - 4);
                    if was_first && old(self).sink.committed == old(self).sink.handed {
                        let (d1, d2, b) = choose|
                            d1: crate::httpdate::HTTPDate,
                            d2: crate::httpdate::HTTPDate,
                            b: bool,
                        |
                            #![trigger crate::response::spec_print(
                                Seq::<u8>::empty(),
                                500,
                                Seq::<HeaderView>::empty(),
                                Some(0usize),
                                ver500,
                                hdrs500,
                                b,
                                None,
                                d1,
                            ), spec_version_notice(d2)]
                            spec_is_wire_prefix(
                                self.wire(),
                                wire_head + crate::response::spec_print(
                                    Seq::<u8>::empty(),
                                    500,
                                    Seq::<HeaderView>::empty(),
                                    Some(0usize),
                                    ver500,
                                    hdrs500,
                                    b,
                                    None,
                                    d1,
                                ) + spec_version_notice(d2),
                            );
                        match spec_read_head(rem0) {
                            HeadParse::Head(h) => {
                                assert(spec_is_wire_prefix(
                                    self.wire(),
                                    old(self).wire() + crate::response::spec_print(
                                        Seq::<u8>::empty(),
                                        500,
                                        Seq::<HeaderView>::empty(),
                                        Some(0usize),
                                        h.line.version,
                                        h.headers,
                                        b,
                                        None,
                                        d1,
                                    ) + spec_version_notice(d2),
                                ));
                            },
                            _ => {},
                        }
                    }
                    if !was_first && old(self).sink.committed == old(self).sink.handed {
                        match spec_read_head(rem0) {
                            HeadParse::Head(h) => {
                                assert(self.wire().take(wire_head.len() as int) =~= wire_head);
                                lemma_notice_prefix_carries(
                                    h,
                                    old(self).wire(),
                                    wire_head,
                                    self.wire(),
                                );
                            },
                            _ => {},
                        }
                    }
                }
                continue ;
            }
            // Updating the status of the connection.
            let closes = match crate::response::find_header(rq.headers(), "Connection") {
                Some(ci) => {
                    let low = to_lower_vec(&rq.headers()[ci].value);
                    if contains(&low, &str_bytes("close")) {
                        true
                    } else if contains(&low, &str_bytes("upgrade")) {
                        true
                    } else if !contains(&low, &str_bytes("keep-alive")) && *rq.http_version()
                        == HTTPVersion(1, 0) {
                        true
                    } else {
                        false
                    }
                },
                None => *rq.http_version() == HTTPVersion(1, 0),
            };
            if closes {
                self.no_more_requests = true;
            }
            proof {
                if was_first {
                    assert(spec_closes_after(headers_view(rq.headers@), rq.http_version)
                        == closes);
                }
                if !was_first && old(self).sink.committed == old(self).sink.handed {
                    match spec_read_head(rem0) {
                        HeadParse::Head(h) => {
                            assert(self.wire().take(wire_head.len() as int) =~= wire_head);
                            lemma_notice_prefix_carries(
                                h,
                                old(self).wire(),
                                wire_head,
                                self.wire(),
                            );
                        },
                        _ => {},
                    }
                }
            }
            return Some(rq);
        }
    }
}

} // verus!
