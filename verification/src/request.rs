//! The request object: one parsed HTTP request, owning its framed body
//! reader and the write slot its response goes out through.
use vstd::prelude::*;

use crate::bytes::{bytes_of, contains, contains_seq, eq_ignore_case, lower, str_bytes,
    to_lower_vec};
use crate::chunks::{spec_decode_chunks, ChunksDecoder};
use crate::common::{Header, HeaderView, HTTPVersion, Method, StatusCode};
use crate::httpdate::HTTPDate;
use crate::numbers::{after_sign, dec_val, parse_dec_u64};
use crate::readers::{min_len, ByteReader, CustomStream, EqualReader};
use crate::response::{first_field, headers_view, opt_vec_view, spec_cl_parses, spec_print,
    Response};
use crate::sequential::SequentialWriter;

verus! {

/// Groups the two directions of a stream; the combined stream handed
/// back by a protocol upgrade is one.
pub trait ReadWrite {

}

impl<R, W> ReadWrite for CustomStream<R, W> {

}

/// Error that can happen when building a `Request` object.
#[derive(Debug, PartialEq, Eq, Structural)]
pub enum RequestCreationError {
    /// The client sent an `Expect` header other than `100-continue`.
    ExpectationFailed,
    /// The connection closed before the announced body arrived.
    CreationIoError,
}

/// The reader over exactly one request's body, framed as the headers
/// dictate.
pub enum BodyReader {
    /// No body: reading reports end of input at once.
    Empty,
    /// A small announced body, drained into memory when the request was
    /// built.
    Buffered(ByteReader),
    /// A large announced body, bounded to its exact length.
    Equal(EqualReader),
    /// A chunked body, already stripped of its framing.
    Chunked(ByteReader),
    /// The rest of the connection, passed through opaquely.
    Upgrade(ByteReader),
    /// A chunked body whose framing was not valid; reads fail.
    Malformed,
}

impl BodyReader {
    pub open spec fn well_formed(&self) -> bool {
        match *self {
            BodyReader::Buffered(r) => r.well_formed(),
            BodyReader::Equal(e) => e.well_formed(),
            BodyReader::Chunked(r) => r.well_formed(),
            BodyReader::Upgrade(r) => r.well_formed(),
            _ => true,
        }
    }

    /// The body bytes still to be read.
    pub open spec fn body(&self) -> Seq<u8> {
        match *self {
            BodyReader::Empty => Seq::empty(),
            BodyReader::Buffered(r) => r.remaining(),
            BodyReader::Equal(e) => e.body(),
            BodyReader::Chunked(r) => r.remaining(),
            BodyReader::Upgrade(r) => r.remaining(),
            BodyReader::Malformed => Seq::empty(),
        }
    }

    /// Reads the whole remaining body; fails exactly on a body whose
    /// chunked framing was invalid.
    pub fn read_to_end(&mut self) -> (r: Result<Vec<u8>, ()>)
        requires
            old(self).well_formed(),
        ensures
            final(self).well_formed(),
            match r {
                Ok(d) => !(*old(self) is Malformed) && d@ == old(self).body()
                    && final(self).body() == Seq::<u8>::empty(),
                Err(_) => *old(self) is Malformed,
            },
    {
        match self {
            BodyReader::Empty => Ok(Vec::new()),
            BodyReader::Buffered(r) => Ok(r.read_to_end()),
            BodyReader::Equal(e) => Ok(e.read_to_end()),
            BodyReader::Chunked(r) => Ok(r.read_to_end()),
            BodyReader::Upgrade(r) => Ok(r.read_to_end()),
            BodyReader::Malformed => Err(()),
        }
    }

    /// Reads up to `n` bytes of the body; fails exactly on a body whose
    /// chunked framing was invalid.
    pub fn read(&mut self, n: usize) -> (r: Result<Vec<u8>, ()>)
        requires
            old(self).well_formed(),
        ensures
            final(self).well_formed(),
            match r {
                Ok(d) => !(*old(self) is Malformed) && d@ == old(self).body().take(
                    min_len(n as nat, old(self).body().len()),
                ) && final(self).body() == old(self).body().skip(
                    min_len(n as nat, old(self).body().len()),
                ),
                Err(_) => *old(self) is Malformed,
            },
    {
        match self {
            BodyReader::Empty => {
                let r: Vec<u8> = Vec::new();
                assert(r@ =~= old(self).body().take(min_len(n as nat, old(self).body().len())));
                assert(self.body() =~= old(self).body().skip(
                    min_len(n as nat, old(self).body().len()),
                ));
                Ok(r)
            },
            BodyReader::Buffered(r) => Ok(r.read(n)),
            BodyReader::Equal(e) => Ok(e.read(n)),
            BodyReader::Chunked(r) => Ok(r.read(n)),
            BodyReader::Upgrade(r) => Ok(r.read(n)),
            BodyReader::Malformed => Err(()),
        }
    }
}

/// The value of the request's `Transfer-Encoding` header, when one is
/// present.
pub open spec fn spec_te_value(hs: Seq<HeaderView>) -> Option<Seq<u8>> {
    match first_field(hs, bytes_of("Transfer-Encoding"@)) {
        None => None,
        Some(h) => Some(h.value),
    }
}

/// The request's announced body length: the `Content-Length` value when
/// it parses, and nothing at all when a `Transfer-Encoding` header is
/// present, which wins over `Content-Length`.
pub open spec fn spec_content_length(hs: Seq<HeaderView>) -> Option<usize> {
    if spec_te_value(hs) is Some {
        None
    } else {
        match first_field(hs, bytes_of("Content-Length"@)) {
            None => None,
            Some(h) => if spec_cl_parses(h.value) {
                Some(dec_val(after_sign(h.value)) as usize)
            } else {
                None
            },
        }
    }
}

/// What the `Expect` header asks: `Some(false)` without the header,
/// `Some(true)` for `100-continue`, and `None` for an expectation this
/// server does not meet.
pub open spec fn spec_expects_continue(hs: Seq<HeaderView>) -> Option<bool> {
    match first_field(hs, bytes_of("Expect"@)) {
        None => Some(false),
        Some(h) => if lower(h.value) == lower(bytes_of("100-continue"@)) {
            Some(true)
        } else {
            None
        },
    }
}

/// True when the `Connection` header asks for a protocol upgrade.
pub open spec fn spec_connection_upgrade(hs: Seq<HeaderView>) -> bool {
    match first_field(hs, bytes_of("Connection"@)) {
        None => false,
        Some(h) => contains_seq(lower(h.value), bytes_of("upgrade"@)),
    }
}

/// How the end of a request's body is found on the wire.
pub enum Framing {
    /// No body at all.
    NoBody,
    /// Exactly this many bytes follow the head.
    Length(usize),
    /// Chunked coding terminates the body.
    Chunked,
    /// The body is the rest of the connection, passed through opaquely.
    Upgrade,
}

/// The framing a request's headers select: a present `Transfer-Encoding`
/// wins over everything and means chunked; else a `Connection: upgrade`
/// takes the rest of the stream; else an announced `Content-Length`
/// fixes the byte count; else there is no body.
pub open spec fn spec_framing(hs: Seq<HeaderView>) -> Framing {
    if spec_te_value(hs) is Some {
        Framing::Chunked
    } else if spec_connection_upgrade(hs) {
        Framing::Upgrade
    } else {
        match spec_content_length(hs) {
            Some(n) => Framing::Length(n),
            None => Framing::NoBody,
        }
    }
}

/// The body a request takes from the source follows its framing, byte
/// for byte: the whole source on an upgrade, exactly the announced
/// count on a length (cut short only by the end of the source), the
/// decoded chunks on a chunked body, and nothing otherwise.
pub proof fn lemma_body_follows_framing(hs: Seq<HeaderView>, source: Seq<u8>)
    ensures
        match spec_framing(hs) {
            Framing::Upgrade => spec_body_span(hs, source) == (source, source.len() as int),
            Framing::Length(n) => spec_body_span(hs, source).0 == source.take(
                min_len(n as nat, source.len()),
            ),
            Framing::Chunked => spec_decode_chunks(source) matches Some(dc) ==> spec_body_span(
                hs,
                source,
            ) == (dc.0, dc.1 as int),
            Framing::NoBody => spec_body_span(hs, source).0 == Seq::<u8>::empty(),
        },
{
}

/// A present `Transfer-Encoding` always blinds the parser to
/// `Content-Length`: whatever that header says, the announced length is
/// nothing and the body is framed by its chunks.
pub proof fn lemma_transfer_encoding_wins(hs: Seq<HeaderView>)
    ensures
        spec_te_value(hs) is Some ==> spec_content_length(hs) is None,
{
}

/// With a `Content-Length` of `n` announced and at least `n` bytes of
/// source received, the request's body is exactly the first `n` source
/// bytes and nothing more: reading the body to its end yields `n` bytes
/// and then nothing.
pub proof fn lemma_content_length_body_exact(hs: Seq<HeaderView>, source: Seq<u8>)
    requires
        !spec_connection_upgrade(hs),
        spec_content_length(hs) matches Some(n) && n <= source.len(),
    ensures
        spec_body_span(hs, source).0.len() == spec_content_length(hs).unwrap(),
        spec_body_span(hs, source).0 == source.take(spec_content_length(hs).unwrap() as int),
        spec_body_span(hs, source).1 == spec_content_length(hs).unwrap(),
{
}

/// The framing-driven body of a new request: which bytes of the source
/// belong to this request's body, and how many bytes of the source they
/// span.
pub open spec fn spec_body_span(hs: Seq<HeaderView>, source: Seq<u8>) -> (Seq<u8>, int) {
    if spec_te_value(hs) is Some {
        match spec_decode_chunks(source) {
            Some(dc) => (dc.0, dc.1 as int),
            None => (Seq::empty(), 0),
        }
    } else if spec_connection_upgrade(hs) {
        (source, source.len() as int)
    } else {
        match spec_content_length(hs) {
            Some(n) => (source.take(min_len(n as nat, source.len())), min_len(
                n as nat,
                source.len(),
            )),
            None => (Seq::empty(), 0),
        }
    }
}

/// Represents an HTTP request made by a client, owning the reader over
/// its body and the write slot its response leaves through.
///
/// A `Request` must be answered through exactly one of
/// [`Request::respond`], [`Request::into_writer`] or [`Request::upgrade`];
/// one abandoned without an answer owes the wire an empty `500`, which
/// [`Request::abandon`] produces.
pub struct Request {
    /// Where to read the body from.
    pub data_reader: BodyReader,
    /// The write slot for the response.
    pub response_writer: SequentialWriter,
    /// The address of the peer, as text.
    pub remote_addr: Vec<u8>,
    /// True if HTTPS, false if HTTP.
    pub secure: bool,
    pub method: Method,
    pub path: Vec<u8>,
    pub http_version: HTTPVersion,
    pub headers: Vec<Header>,
    pub body_length: Option<usize>,
    /// True if a `100 Continue` must be sent when `as_reader` is called.
    pub must_send_continue: bool,
}

/// Builds a new request.
///
/// After the request line and headers have been read from the source,
/// the framing rules pick the body: a `Connection: upgrade` takes the
/// whole rest of the source; else an announced `Content-Length` takes
/// exactly that many bytes (a small body is drained at once, and it is
/// an error for the source to end before an announced small body); else
/// a `Transfer-Encoding` means the body is chunked; else there is no
/// body. The source is left standing on the first byte after the body.
#[verifier::rlimit(60)]
pub fn new_request(
    secure: bool,
    method: Method,
    path: Vec<u8>,
    version: HTTPVersion,
    headers: Vec<Header>,
    remote_addr: Vec<u8>,
    source_data: &mut ByteReader,
    writer: SequentialWriter,
) -> (r: Result<Request, (RequestCreationError, SequentialWriter)>)
    requires
        old(source_data).well_formed(),
    ensures
        final(source_data).well_formed(),
        final(source_data).remaining().len() <= old(source_data).remaining().len(),
        match r {
            Ok(rq) => {
                &&& spec_expects_continue(headers_view(headers@)) matches Some(cont)
                    && rq.must_send_continue == cont
                &&& rq.method == method
                &&& rq.path == path
                &&& rq.http_version == version
                &&& rq.headers == headers
                &&& rq.secure == secure
                &&& rq.remote_addr == remote_addr
                &&& rq.response_writer == writer
                &&& rq.body_length == spec_content_length(headers_view(headers@))
                &&& rq.data_reader.well_formed()
                &&& (rq.data_reader is Malformed <==> (spec_te_value(headers_view(headers@))
                    is Some && spec_decode_chunks(old(source_data).remaining()) is None))
                &&& rq.data_reader.body() == spec_body_span(
                    headers_view(headers@),
                    old(source_data).remaining(),
                ).0
                &&& (!(rq.data_reader is Malformed) ==> final(source_data).remaining() == old(
                    source_data,
                ).remaining().skip(
                    spec_body_span(headers_view(headers@), old(source_data).remaining()).1,
                ))
                &&& !(!spec_connection_upgrade(headers_view(headers@)) && (spec_content_length(
                    headers_view(headers@),
                ) matches Some(n) && 0 < n <= 1024 && spec_expects_continue(headers_view(headers@))
                    == Some(false) && old(source_data).remaining().len() < n))
            },
            Err((RequestCreationError::ExpectationFailed, w)) => w == writer
                && spec_expects_continue(headers_view(headers@)) is None,
            Err((RequestCreationError::CreationIoError, w)) => {
                &&& w == writer
                &&& spec_expects_continue(headers_view(headers@)) is Some
                &&& !spec_connection_upgrade(headers_view(headers@))
                &&& spec_content_length(headers_view(headers@)) matches Some(n) && 0 < n <= 1024
                    && spec_expects_continue(headers_view(headers@)) == Some(false) && old(
                    source_data,
                ).remaining().len() < n
            },
        },
{
    proof {
        reveal_strlit("Transfer-Encoding");
        reveal_strlit("Content-Length");
        reveal_strlit("Expect");
        reveal_strlit("100-continue");
        reveal_strlit("Connection");
        reveal_strlit("upgrade");
    }
    let ghost hv = headers_view(headers@);
    // Finding the transfer-encoding header.
    let transfer_encoding = crate::response::find_header(&headers, "Transfer-Encoding");
    // If transfer-encoding is specified, the Content-Length header must
    // be ignored (RFC 2616 section 4.4).
    let content_length: Option<usize> = match transfer_encoding {
        Some(_) => None,
        None => {
            match crate::response::find_header(&headers, "Content-Length") {
                None => None,
                Some(i) => {
                    match parse_dec_u64(&headers[i].value) {
                        Some(n) => {
                            if n <= usize::MAX as u64 {
                                Some(n as usize)
                            } else {
                                None
                            }
                        },
                        None => None,
                    }
                },
            }
        },
    };
    assert(content_length == spec_content_length(hv));
    // True if the client sent `Expect: 100-continue`.
    let expects_continue: bool = match crate::response::find_header(&headers, "Expect") {
        None => false,
        Some(i) => {
            if eq_ignore_case(&headers[i].value, &str_bytes("100-continue")) {
                true
            } else {
                return Err((RequestCreationError::ExpectationFailed, writer));
            }
        },
    };
    assert(spec_expects_continue(hv) == Some(expects_continue));
    // True if the client sent `Connection: upgrade`.
    let connection_upgrade: bool = match crate::response::find_header(&headers, "Connection") {
        None => false,
        Some(i) => {
            let low = to_lower_vec(&headers[i].value);
            contains(&low, &str_bytes("upgrade"))
        },
    };
    assert(connection_upgrade == spec_connection_upgrade(hv));
    // The body reader, whose nature the framing rules pick.
    let reader: BodyReader = if transfer_encoding.is_some() {
        // A transfer encoding wins over everything else: chunked framing
        // is always applied over the message (RFC 2616 section 3.6).
        let mut tmp = ByteReader::new(Vec::new());
        core::mem::swap(source_data, &mut tmp);
        let mut dec = ChunksDecoder::new(tmp);
        let decoded = dec.read_to_end();
        core::mem::swap(source_data, &mut dec.source);
        match decoded {
            Ok(d) => BodyReader::Chunked(ByteReader::new(d)),
            Err(_) => BodyReader::Malformed,
        }
    } else if connection_upgrade {
        // With `Connection: upgrade`, the body is the rest of the stream.
        let rest = source_data.read_to_end();
        BodyReader::Upgrade(ByteReader::new(rest))
    } else if let Some(cl) = content_length {
        if cl == 0 {
            proof {
                assert(spec_body_span(hv, old(source_data).remaining()).0 =~= Seq::<u8>::empty());
                assert(old(source_data).remaining().skip(0) =~= old(source_data).remaining());
            }
            BodyReader::Empty
        } else if cl <= 1024 && !expects_continue {
            // A small announced body is drained into memory at once, so
            // the next request can begin parsing without waiting.
            let avail = source_data.data.len() - source_data.pos;
            if avail < cl {
                // The connection closed before enough data arrived.
                return Err((RequestCreationError::CreationIoError, writer));
            }
            let bytes = source_data.read(cl);
            BodyReader::Buffered(ByteReader::new(bytes))
        } else {
            // A large announced body stays bounded to its length.
            let bytes = source_data.read(cl);
            BodyReader::Equal(EqualReader::new(ByteReader::new(bytes), cl))
        }
    } else {
        // Neither framing header and no upgrade: there is no body.
        proof {
            assert(old(source_data).remaining().skip(0) =~= old(source_data).remaining());
        }
        BodyReader::Empty
    };
    Ok(
        Request {
            data_reader: reader,
            response_writer: writer,
            remote_addr,
            secure,
            method,
            path,
            http_version: version,
            headers,
            body_length: content_length,
            must_send_continue: expects_continue,
        },
    )
}

/// A response to a `HEAD` request carries its status line and headers
/// and zero body bytes: with the body withheld, as [`Request::respond`]
/// does for `HEAD`, the printed bytes are the head alone, whatever body
/// the response holds.
pub proof fn lemma_head_response_has_no_body(
    data: Seq<u8>,
    status: u16,
    headers: Seq<HeaderView>,
    dl: Option<usize>,
    ver: HTTPVersion,
    req_headers: Seq<HeaderView>,
    date: crate::httpdate::HTTPDate,
)
    ensures
        ({
            let te = Some(crate::response::spec_choose_te(req_headers, ver, dl, false));
            spec_print(data, status, headers, dl, ver, req_headers, true, None, date)
                == crate::response::spec_status_line(ver, status)
                + crate::response::headers_bytes(
                crate::response::spec_final_headers(headers, dl, data.len(), None, date, te),
            ) + crate::chunks::crlf()
        }),
{
    crate::response::lemma_suppressed_body_is_empty(
        data,
        status,
        headers,
        dl,
        ver,
        req_headers,
        true,
        None,
        date,
    );
}

impl Request {
    pub open spec fn well_formed(&self) -> bool {
        self.data_reader.well_formed()
    }

    /// Returns true if the request was made through a secured stream.
    pub fn secure(&self) -> (r: bool)
        ensures
            r == self.secure,
    {
        self.secure
    }

    /// Returns the method requested by the client (eg. `GET`, `POST`,
    /// etc.).
    pub fn method(&self) -> (r: &Method)
        ensures
            r == &self.method,
    {
        &self.method
    }

    /// Returns the resource requested by the client.
    pub fn url(&self) -> (r: &Vec<u8>)
        ensures
            r == &self.path,
    {
        &self.path
    }

    /// Returns a list of all headers sent by the client.
    pub fn headers(&self) -> (r: &Vec<Header>)
        ensures
            r == &self.headers,
    {
        &self.headers
    }

    /// Returns the HTTP version of the request.
    pub fn http_version(&self) -> (r: &HTTPVersion)
        ensures
            r == &self.http_version,
    {
        &self.http_version
    }

    /// Returns the length of the body in bytes, when it is known.
    pub fn body_length(&self) -> (r: Option<usize>)
        ensures
            r == self.body_length,
    {
        self.body_length
    }

    /// Returns the address of the client that sent this request.
    pub fn remote_addr(&self) -> (r: &Vec<u8>)
        ensures
            r == &self.remote_addr,
    {
        &self.remote_addr
    }

    /// Allows the body of the request to be read.
    ///
    /// If the client sent `Expect: 100-continue`, the first call writes
    /// a `100 Continue` response into the write slot before handing the
    /// body reader out; nothing is written before that first call.
    pub fn as_reader(&mut self) -> (r: &mut BodyReader)
        requires
            old(self).well_formed(),
        ensures
            *r == old(self).data_reader,
            final(self).data_reader == *final(r),
            final(self).must_send_continue == false,
            final(self).method == old(self).method,
            final(self).path == old(self).path,
            final(self).http_version == old(self).http_version,
            final(self).headers == old(self).headers,
            final(self).body_length == old(self).body_length,
            final(self).secure == old(self).secure,
            final(self).remote_addr == old(self).remote_addr,
            final(self).response_writer.index == old(self).response_writer.index,
            !old(self).must_send_continue ==> final(self).response_writer == old(
                self,
            ).response_writer,
            old(self).must_send_continue ==> exists|d: HTTPDate|
                final(self).response_writer.buffer@ == old(self).response_writer.buffer@
                    + #[trigger] spec_print(
                    Seq::<u8>::empty(),
                    100,
                    Seq::<HeaderView>::empty(),
                    Some(0usize),
                    old(self).http_version,
                    headers_view(old(self).headers@),
                    true,
                    None,
                    d,
                ),
    {
        if self.must_send_continue {
            let msg = Response::new_empty(StatusCode(100));
            let bytes = msg.raw_print(self.http_version, &self.headers, true, None);
            self.response_writer.write(&bytes);
            self.must_send_continue = false;
            proof {
                let d = choose|d: HTTPDate|
                    bytes@ == #[trigger] spec_print(
                        Seq::<u8>::empty(),
                        100,
                        Seq::<HeaderView>::empty(),
                        Some(0usize),
                        old(self).http_version,
                        headers_view(old(self).headers@),
                        true,
                        None,
                        d,
                    );
            }
        }
        &mut self.data_reader
    }

    /// Turns the `Request` into its write slot.
    ///
    /// The slot gives raw access to the response stream, which is useful
    /// for things like CGI; the body reader is dropped with the request.
    pub fn into_writer(self) -> (r: SequentialWriter)
        ensures
            r == self.response_writer,
    {
        self.response_writer
    }

    /// Sends a response to this request: the response is printed into
    /// the request's write slot, with the body withheld when the request
    /// was a `HEAD`, and the slot comes back to be finished on its
    /// sequencer.
    pub fn respond(self, response: Response) -> (r: SequentialWriter)
        ensures
            r.index == self.response_writer.index,
            exists|d: HTTPDate|
                r.buffer@ == self.response_writer.buffer@ + #[trigger] spec_print(
                    response.data@,
                    response.status_code.0,
                    headers_view(response.headers@),
                    response.data_length,
                    self.http_version,
                    headers_view(self.headers@),
                    self.method is Head,
                    None,
                    d,
                ),
    {
        let Request { data_reader: _, response_writer: mut writer, method, http_version, headers, .. } =
            self;
        let do_not_send_body = method.eq(&Method::Head);
        let bytes = response.raw_print(http_version, &headers, do_not_send_body, None);
        writer.write(&bytes);
        writer
    }

    /// Sends a response with `Connection: upgrade` and `Upgrade:
    /// <protocol>` headers, then turns the `Request` into a stream: the
    /// remaining input bytes to read from, and the write slot to write
    /// to, for arbitrary traffic.
    pub fn upgrade(self, protocol: &Vec<u8>, response: Response) -> (r: CustomStream<
        BodyReader,
        SequentialWriter,
    >)
        ensures
            r.reader == self.data_reader,
            r.writer.index == self.response_writer.index,
            exists|d: HTTPDate|
                r.writer.buffer@ == self.response_writer.buffer@ + #[trigger] spec_print(
                    response.data@,
                    response.status_code.0,
                    headers_view(response.headers@),
                    response.data_length,
                    self.http_version,
                    headers_view(self.headers@),
                    false,
                    Some(protocol@),
                    d,
                ),
    {
        let Request { data_reader, response_writer: mut writer, http_version, headers, .. } = self;
        let bytes = response.raw_print(http_version, &headers, false, Some(protocol));
        writer.write(&bytes);
        CustomStream::new(data_reader, writer)
    }

    /// Gives up on the request without a real answer: an empty `500`
    /// response is printed into the write slot, which comes back to be
    /// finished on its sequencer. This is what a request abandoned by
    /// its handler owes the wire.
    pub fn abandon(self) -> (r: SequentialWriter)
        ensures
            r.index == self.response_writer.index,
            exists|d: HTTPDate|
                r.buffer@ == self.response_writer.buffer@ + #[trigger] spec_print(
                    Seq::<u8>::empty(),
                    500,
                    Seq::<HeaderView>::empty(),
                    Some(0usize),
                    self.http_version,
                    headers_view(self.headers@),
                    self.method is Head,
                    None,
                    d,
                ),
    {
        let ghost s0 = self;
        let response = Response::empty(StatusCode(500));
        let r = self.respond(response);
        proof {
            let d = choose|d: HTTPDate|
                r.buffer@ == s0.response_writer.buffer@ + #[trigger] spec_print(
                    Seq::<u8>::empty(),
                    500,
                    Seq::<HeaderView>::empty(),
                    Some(0usize),
                    s0.http_version,
                    headers_view(s0.headers@),
                    s0.method is Head,
                    None,
                    d,
                );
        }
        r
    }
}

} // verus!
