//! The response emitter: turning a response value into the exact bytes
//! that go on the wire.
//!
//! The emitter negotiates the transfer encoding against the request's
//! `TE` header, injects the `Date` and `Server` headers, withholds reserved
//! headers from the caller, and frames the body as chunked or identity.
use vstd::prelude::*;
use vstd::string::StringSliceAdditionalSpecFns;
use vstd::string::StrSliceExecFns;

use crate::bytes::{bytes_of, contains_seq, eq_ignore_case, is_ascii_bytes, lower, push_str,
    str_bytes};
use crate::chunks::{crlf, encode_all, spec_encode_chunks};
use crate::common::{spec_reason_phrase, Header, HeaderField, HeaderView, HTTPVersion, StatusCode};
use crate::httpdate::{spec_rfc1123, HTTPDate};
use crate::numbers::{dec, dec_accepts, dec_val, after_sign, parse_dec_u64, push_dec};
use crate::readers::min_len;
use crate::util::{entries_view, parse_header_value, spec_parse_header_value};

verus! {

/// Transfer encoding to use when sending the message. Note that only
/// *supported* encodings are listed here.
#[derive(Copy, Clone, Debug, PartialEq, Eq, Structural)]
pub enum TransferEncoding {
    Identity,
    Chunked,
}

impl TransferEncoding {
    /// Reads an encoding name, ignoring ASCII case; `None` for anything
    /// but `identity` and `chunked`.
    pub fn parse(input: &Vec<u8>) -> (r: Option<TransferEncoding>)
        ensures
            r == spec_parse_te(input@),
    {
        proof {
            reveal_strlit("identity");
            reveal_strlit("chunked");
        }
        if eq_ignore_case(input, &str_bytes("identity")) {
            Some(TransferEncoding::Identity)
        } else if eq_ignore_case(input, &str_bytes("chunked")) {
            Some(TransferEncoding::Chunked)
        } else {
            None
        }
    }
}

/// The encoding named by a token, ignoring ASCII case.
pub open spec fn spec_parse_te(t: Seq<u8>) -> Option<TransferEncoding> {
    if lower(t) == lower(bytes_of("identity"@)) {
        Some(TransferEncoding::Identity)
    } else if lower(t) == lower(bytes_of("chunked"@)) {
        Some(TransferEncoding::Chunked)
    } else {
        None
    }
}

/// The view of a header list.
pub open spec fn headers_view(hs: Seq<Header>) -> Seq<HeaderView> {
    hs.map_values(|h: Header| h@)
}

/// The view of a concatenation is the concatenation of the views.
pub proof fn lemma_headers_view_concat(a: Seq<Header>, b: Seq<Header>)
    ensures
        headers_view(a + b) =~= headers_view(a) + headers_view(b),
{
    assert forall|i: int| 0 <= i < a.len() + b.len() implies headers_view(a + b)[i] == (
    headers_view(a) + headers_view(b))[i] by {
        if i < a.len() {
            assert((a + b)[i] == a[i]);
        } else {
            assert((a + b)[i] == b[i - a.len()]);
        }
    }
}

/// The first header carrying this field name, up to ASCII case.
pub open spec fn first_field(hs: Seq<HeaderView>, name: Seq<u8>) -> Option<HeaderView>
    decreases hs.len(),
{
    if hs.len() == 0 {
        None
    } else if lower(hs[0].field) == lower(name) {
        Some(hs[0])
    } else {
        first_field(hs.drop_first(), name)
    }
}

/// True when some header carries this field name, up to ASCII case.
pub open spec fn has_field(hs: Seq<HeaderView>, name: Seq<u8>) -> bool {
    first_field(hs, name) is Some
}

/// `first_field` names exactly the earliest matching header.
pub proof fn lemma_first_field_at(hs: Seq<HeaderView>, name: Seq<u8>, i: int)
    requires
        0 <= i < hs.len(),
        lower(hs[i].field) == lower(name),
        forall|k: int| 0 <= k < i ==> lower(#[trigger] hs[k].field) != lower(name),
    ensures
        first_field(hs, name) == Some(hs[i]),
    decreases hs.len(),
{
    if i > 0 {
        lemma_first_field_at(hs.drop_first(), name, i - 1);
    }
}

/// Without a matching header there is nothing for `first_field` to name.
pub proof fn lemma_first_field_none(hs: Seq<HeaderView>, name: Seq<u8>)
    requires
        forall|k: int| 0 <= k < hs.len() ==> lower(#[trigger] hs[k].field) != lower(name),
    ensures
        first_field(hs, name) is None,
    decreases hs.len(),
{
    if hs.len() > 0 {
        lemma_first_field_none(hs.drop_first(), name);
    }
}

/// The first header of `headers` whose field spells `name`, ignoring
/// ASCII case; `None` when there is none.
pub fn find_header(headers: &Vec<Header>, name: &str) -> (r: Option<usize>)
    requires
        name.is_ascii(),
    ensures
        match r {
            Some(i) => i < headers@.len() && first_field(headers_view(headers@), bytes_of(name@))
                == Some(headers@[i as int]@),
            None => first_field(headers_view(headers@), bytes_of(name@)) is None,
        },
{
    let nb = str_bytes(name);
    let mut i: usize = 0;
    let ghost hv = headers_view(headers@);
    while i < headers.len()
        invariant
            i <= headers@.len(),
            hv == headers_view(headers@),
            hv.len() == headers@.len(),
            nb@ == bytes_of(name@),
            forall|k: int| 0 <= k < i ==> lower(#[trigger] hv[k].field) != lower(nb@),
        decreases headers@.len() - i,
    {
        if eq_ignore_case(&headers[i].field.0, &nb) {
            proof {
                assert(hv[i as int] == headers@[i as int]@);
                lemma_first_field_at(hv, nb@, i as int);
            }
            return Some(i);
        }
        assert(hv[i as int] == headers@[i as int]@);
        i = i + 1;
    }
    proof {
        lemma_first_field_none(hv, nb@);
    }
    None
}

/// A recognized encoding with a positive weight, as one candidate of the
/// client's `TE` list.
pub open spec fn spec_te_candidate(e: (Seq<u8>, u32)) -> Option<TransferEncoding> {
    if e.1 == 0 {
        None
    } else {
        spec_parse_te(e.0)
    }
}

/// The client's best candidate: the recognized, positively weighted
/// entry with the greatest weight, the earliest winning ties.
pub open spec fn spec_best_te(entries: Seq<(Seq<u8>, u32)>) -> Option<(TransferEncoding, u32)>
    decreases entries.len(),
{
    if entries.len() == 0 {
        None
    } else {
        let rest = spec_best_te(entries.drop_first());
        match spec_te_candidate(entries[0]) {
            None => rest,
            Some(te) => match rest {
                None => Some((te, entries[0].1)),
                Some(r) => if entries[0].1 >= r.1 {
                    Some((te, entries[0].1))
                } else {
                    Some(r)
                },
            },
        }
    }
}

/// The best candidate of a `TE` list, computed over the parsed entries.
fn best_te(entries: &Vec<(Vec<u8>, u32)>) -> (r: Option<(TransferEncoding, u32)>)
    ensures
        r == spec_best_te(entries_view(entries@)),
{
    let ghost ev = entries_view(entries@);
    let mut best: Option<(TransferEncoding, u32)> = None;
    let mut i: usize = entries.len();
    proof {
        assert(ev.skip(i as int) =~= Seq::<(Seq<u8>, u32)>::empty());
    }
    while i > 0
        invariant
            i <= entries@.len(),
            ev == entries_view(entries@),
            ev.len() == entries@.len(),
            best == spec_best_te(ev.skip(i as int)),
        decreases i,
    {
        i = i - 1;
        let q = entries[i].1;
        let cand: Option<TransferEncoding> = if q == 0 {
            None
        } else {
            TransferEncoding::parse(&entries[i].0)
        };
        proof {
            assert(ev[i as int] == (entries@[i as int].0@, entries@[i as int].1));
            assert(ev.skip(i as int)[0] == ev[i as int]);
            assert(ev.skip(i as int).drop_first() =~= ev.skip(i + 1));
            assert(cand == spec_te_candidate(ev.skip(i as int)[0]));
        }
        best = match cand {
            None => best,
            Some(te) => match best {
                None => Some((te, q)),
                Some(r) => if q >= r.1 {
                    Some((te, q))
                } else {
                    Some(r)
                },
            },
        };
    }
    proof {
        assert(ev.skip(0) =~= ev);
    }
    best
}

/// The transfer encoding the emitter uses, as the original negotiation
/// goes: HTTP/1.0 always gets identity; otherwise the client's `TE`
/// header may pick one; otherwise chunked is used for additional headers,
/// for an unknown length or for a body of 32 KiB or more, and identity
/// for the rest.
pub open spec fn spec_choose_te(
    req_headers: Seq<HeaderView>,
    ver: HTTPVersion,
    entity_length: Option<usize>,
    has_additional_headers: bool,
) -> TransferEncoding {
    if ver.0 < 1 || (ver.0 == 1 && ver.1 <= 0) {
        TransferEncoding::Identity
    } else {
        let user = match first_field(req_headers, bytes_of("TE"@)) {
            None => None,
            Some(h) => spec_best_te(spec_parse_header_value(h.value)),
        };
        match user {
            Some(u) => u.0,
            None => {
                if has_additional_headers {
                    TransferEncoding::Chunked
                } else {
                    match entity_length {
                        None => TransferEncoding::Chunked,
                        Some(l) => if l >= 32768 {
                            TransferEncoding::Chunked
                        } else {
                            TransferEncoding::Identity
                        },
                    }
                }
            },
        }
    }
}

/// Chooses the transfer encoding for a response to a request that
/// carried `request_headers`, honouring the client's `TE` preferences.
pub fn choose_transfer_encoding(
    request_headers: &Vec<Header>,
    http_version: &HTTPVersion,
    entity_length: &Option<usize>,
    has_additional_headers: bool,
) -> (r: TransferEncoding)
    ensures
        r == spec_choose_te(
            headers_view(request_headers@),
            *http_version,
            *entity_length,
            has_additional_headers,
        ),
{
    proof {
        reveal_strlit("TE");
    }
    if http_version.is_at_most(1, 0) {
        return TransferEncoding::Identity;
    }
    let user = match find_header(request_headers, "TE") {
        None => None,
        Some(i) => {
            let entries = parse_header_value(&request_headers[i].value);
            best_te(&entries)
        },
    };
    match user {
        Some(u) => u.0,
        None => {
            if has_additional_headers {
                TransferEncoding::Chunked
            } else {
                match entity_length {
                    None => TransferEncoding::Chunked,
                    Some(l) => {
                        if *l >= 32768 {
                            TransferEncoding::Chunked
                        } else {
                            TransferEncoding::Identity
                        }
                    },
                }
            }
        },
    }
}

/// The status line: `HTTP/<major>.<minor> <code> <reason>\r\n`.
pub open spec fn spec_status_line(ver: HTTPVersion, status: u16) -> Seq<u8> {
    bytes_of("HTTP/"@) + dec(ver.0 as nat) + bytes_of("."@) + dec(ver.1 as nat) + bytes_of(" "@)
        + dec(status as nat) + bytes_of(" "@) + bytes_of(spec_reason_phrase(status)) + crlf()
}

/// One header line: `<field>: <value>\r\n`.
pub open spec fn one_header_bytes(h: HeaderView) -> Seq<u8> {
    h.field + bytes_of(": "@) + h.value + crlf()
}

/// The header lines of a list, in order.
pub open spec fn headers_bytes(hs: Seq<HeaderView>) -> Seq<u8>
    decreases hs.len(),
{
    if hs.len() == 0 {
        Seq::empty()
    } else {
        one_header_bytes(hs[0]) + headers_bytes(hs.drop_first())
    }
}

/// Serializing one more header appends one more line.
pub proof fn lemma_headers_bytes_snoc(hs: Seq<HeaderView>, h: HeaderView)
    ensures
        headers_bytes(hs.push(h)) == headers_bytes(hs) + one_header_bytes(h),
    decreases hs.len(),
{
    if hs.len() == 0 {
        assert(hs.push(h)[0] == h);
        assert(hs.push(h).drop_first() =~= Seq::<HeaderView>::empty());
        assert(headers_bytes(Seq::<HeaderView>::empty()) == Seq::<u8>::empty());
        assert(headers_bytes(hs.push(h)) =~= one_header_bytes(h));
        assert(headers_bytes(hs) + one_header_bytes(h) =~= one_header_bytes(h));
    } else {
        lemma_headers_bytes_snoc(hs.drop_first(), h);
        assert(hs.push(h).drop_first() =~= hs.drop_first().push(h));
        assert(hs.push(h)[0] == hs[0]);
        assert(headers_bytes(hs.push(h)) == one_header_bytes(hs[0]) + (headers_bytes(
            hs.drop_first(),
        ) + one_header_bytes(h)));
        assert(one_header_bytes(hs[0]) + (headers_bytes(hs.drop_first()) + one_header_bytes(h))
            =~= (one_header_bytes(hs[0]) + headers_bytes(hs.drop_first())) + one_header_bytes(h));
    }
}

/// Writes the status line, the header lines and the blank separator.
pub fn write_message_header(
    out: &mut Vec<u8>,
    http_version: &HTTPVersion,
    status_code: &StatusCode,
    headers: &Vec<Header>,
)
    ensures
        final(out)@ == old(out)@ + spec_status_line(*http_version, status_code.0) + headers_bytes(
            headers_view(headers@),
        ) + crlf(),
{
    proof {
        reveal_strlit("HTTP/");
        reveal_strlit(".");
        reveal_strlit(" ");
        reveal_strlit(": ");
    }
    // The status line.
    push_str(out, "HTTP/");
    push_dec(out, http_version.0 as u64);
    push_str(out, ".");
    push_dec(out, http_version.1 as u64);
    push_str(out, " ");
    push_dec(out, status_code.0 as u64);
    push_str(out, " ");
    let reason = status_code.default_reason_phrase();
    push_str(out, reason);
    out.push(13);
    out.push(10);
    assert(out@ =~= old(out)@ + spec_status_line(*http_version, status_code.0));
    let ghost line = out@;
    // The header lines.
    let ghost hv = headers_view(headers@);
    let mut i: usize = 0;
    proof {
        assert(hv.take(0) =~= Seq::<HeaderView>::empty());
    }
    while i < headers.len()
        invariant
            i <= headers@.len(),
            hv == headers_view(headers@),
            hv.len() == headers@.len(),
            out@ == line + headers_bytes(hv.take(i as int)),
        decreases headers@.len() - i,
    {
        proof {
            reveal_strlit(": ");
        }
        let h = &headers[i];
        out.extend_from_slice(h.field.0.as_slice());
        push_str(out, ": ");
        out.extend_from_slice(h.value.as_slice());
        out.push(13);
        out.push(10);
        proof {
            assert(hv[i as int] == headers@[i as int]@);
            assert(hv.take(i + 1) =~= hv.take(i as int).push(hv[i as int]));
            lemma_headers_bytes_snoc(hv.take(i as int), hv[i as int]);
            assert(out@ =~= line + (headers_bytes(hv.take(i as int)) + one_header_bytes(
                hv[i as int],
            )));
        }
        i = i + 1;
    }
    proof {
        assert(hv.take(hv.len() as int) =~= hv);
    }
    // The separator between headers and body.
    out.push(13);
    out.push(10);
    assert(out@ =~= old(out)@ + spec_status_line(*http_version, status_code.0) + headers_bytes(hv)
        + crlf());
}

/// The viewed value of an optional borrowed byte vector.
pub open spec fn opt_vec_view(u: Option<&Vec<u8>>) -> Option<Seq<u8>> {
    match u {
        None => None,
        Some(v) => Some(v@),
    }
}

/// The six header fields the emitter owns: a caller cannot set them, and
/// attempts to do so are silently dropped.
pub open spec fn is_reserved_field(f: Seq<u8>) -> bool {
    ||| lower(f) == lower(bytes_of("Accept-Ranges"@))
    ||| lower(f) == lower(bytes_of("Connection"@))
    ||| lower(f) == lower(bytes_of("Content-Range"@))
    ||| lower(f) == lower(bytes_of("Trailer"@))
    ||| lower(f) == lower(bytes_of("Transfer-Encoding"@))
    ||| lower(f) == lower(bytes_of("Upgrade"@))
}

/// True when the bytes parse as a `Content-Length` value: a decimal
/// number that fits the platform's sizes.
pub open spec fn spec_cl_parses(v: Seq<u8>) -> bool {
    dec_accepts(v) && dec_val(after_sign(v)) <= usize::MAX
}

/// True when no header in the list carries a reserved field.
pub open spec fn spec_no_reserved(hs: Seq<HeaderView>) -> bool {
    forall|i: int| 0 <= i < hs.len() ==> !is_reserved_field((#[trigger] hs[i]).field)
}

/// What adding one header does to a response's header list and stored
/// length: a reserved field changes nothing, `Content-Length` updates
/// the stored length instead of appearing literally, and anything else
/// is appended.
pub open spec fn spec_add_header(
    state: (Seq<HeaderView>, Option<usize>),
    h: HeaderView,
) -> (Seq<HeaderView>, Option<usize>) {
    if is_reserved_field(h.field) {
        state
    } else if lower(h.field) == lower(bytes_of("Content-Length"@)) {
        if spec_cl_parses(h.value) {
            (state.0, Some(dec_val(after_sign(h.value)) as usize))
        } else {
            state
        }
    } else {
        (state.0.push(h), state.1)
    }
}

/// Adding a list of headers, first to last.
pub open spec fn spec_add_all(
    state: (Seq<HeaderView>, Option<usize>),
    hs: Seq<HeaderView>,
) -> (Seq<HeaderView>, Option<usize>)
    decreases hs.len(),
{
    if hs.len() == 0 {
        state
    } else {
        spec_add_all(spec_add_header(state, hs[0]), hs.drop_first())
    }
}

/// Object representing an HTTP response whose purpose is to be given to
/// a `Request`.
///
/// Some headers cannot be changed; trying to define the value of one of
/// these has no effect:
///
///  - `Accept-Ranges`
///  - `Connection`
///  - `Content-Range`
///  - `Trailer`
///  - `Transfer-Encoding`
///  - `Upgrade`
///
/// `Content-Length` has a special behavior: setting it updates the
/// stored body length, and the header itself is synthesized from that
/// length when the response is printed.
pub struct Response {
    /// The whole body, as bytes.
    pub data: Vec<u8>,
    pub status_code: StatusCode,
    pub headers: Vec<Header>,
    pub data_length: Option<usize>,
}

impl Response {
    /// Creates a new `Response` object, passing every given header
    /// through [`Response::add_header`]'s checks.
    pub fn new(
        status_code: StatusCode,
        headers: Vec<Header>,
        data: Vec<u8>,
        data_length: Option<usize>,
    ) -> (r: Response)
        ensures
            r.status_code == status_code,
            r.data@ == data@,
            (headers_view(r.headers@), r.data_length) == spec_add_all(
                (Seq::<HeaderView>::empty(), data_length),
                headers_view(headers@),
            ),
            spec_no_reserved(headers_view(r.headers@)),
    {
        let ghost hv = headers_view(headers@);
        let mut response = Response { data, status_code, headers: Vec::new(), data_length };
        proof {
            assert(headers_view(response.headers@) =~= Seq::<HeaderView>::empty());
            assert(hv.skip(0) =~= hv);
        }
        let mut i: usize = 0;
        while i < headers.len()
            invariant
                i <= headers@.len(),
                hv == headers_view(headers@),
                hv.len() == headers@.len(),
                response.status_code == status_code,
                response.data@ == data@,
                spec_add_all((Seq::<HeaderView>::empty(), data_length), hv) == spec_add_all(
                    (headers_view(response.headers@), response.data_length),
                    hv.skip(i as int),
                ),
                spec_no_reserved(headers_view(response.headers@)),
            decreases headers@.len() - i,
        {
            let h = headers[i].clone_header();
            proof {
                assert(hv.skip(i as int)[0] == hv[i as int]);
                assert(hv[i as int] == headers@[i as int]@);
                assert(hv.skip(i as int).drop_first() =~= hv.skip(i + 1));
            }
            response.add_header(h);
            i = i + 1;
        }
        proof {
            assert(hv.skip(hv.len() as int) =~= Seq::<HeaderView>::empty());
        }
        response
    }

    /// Adds a header to the list, doing all the checks: a reserved field
    /// is silently dropped, and `Content-Length` updates the stored body
    /// length instead of appearing in the list.
    pub fn add_header(&mut self, header: Header)
        ensures
            (headers_view(final(self).headers@), final(self).data_length) == spec_add_header(
                (headers_view(old(self).headers@), old(self).data_length),
                header@,
            ),
            final(self).data == old(self).data,
            final(self).status_code == old(self).status_code,
            is_reserved_field(header@.field) ==> *final(self) == *old(self),
            spec_no_reserved(headers_view(old(self).headers@)) ==> spec_no_reserved(
                headers_view(final(self).headers@),
            ),
    {
        proof {
            reveal_strlit("Accept-Ranges");
            reveal_strlit("Connection");
            reveal_strlit("Content-Range");
            reveal_strlit("Trailer");
            reveal_strlit("Transfer-Encoding");
            reveal_strlit("Upgrade");
            reveal_strlit("Content-Length");
        }
        // Ignoring forbidden headers.
        if header.field.equiv("Accept-Ranges") || header.field.equiv("Connection")
            || header.field.equiv("Content-Range") || header.field.equiv("Trailer")
            || header.field.equiv("Transfer-Encoding") || header.field.equiv("Upgrade") {
            return ;
        }
        // If the header is Content-Length, setting the data length.
        if header.field.equiv("Content-Length") {
            match parse_dec_u64(&header.value) {
                Some(val) => {
                    if val <= usize::MAX as u64 {
                        self.data_length = Some(val as usize);
                    }
                },
                None => {},
            }
            return ;
        }
        let ghost hv0 = headers_view(self.headers@);
        self.headers.push(header);
        proof {
            assert(headers_view(self.headers@) =~= hv0.push(self.headers@.last()@));
        }
    }

    /// Returns the same response, but with an additional header.
    pub fn with_header(self, header: Header) -> (r: Response)
        ensures
            (headers_view(r.headers@), r.data_length) == spec_add_header(
                (headers_view(self.headers@), self.data_length),
                header@,
            ),
            r.data == self.data,
            r.status_code == self.status_code,
            spec_no_reserved(headers_view(self.headers@)) ==> spec_no_reserved(
                headers_view(r.headers@),
            ),
    {
        let mut me = self;
        me.add_header(header);
        me
    }

    /// Returns the same response, but with a different status code.
    pub fn with_status_code(self, code: StatusCode) -> (r: Response)
        ensures
            r.status_code == code,
            r.data == self.data,
            r.headers == self.headers,
            r.data_length == self.data_length,
    {
        Response { status_code: code, ..self }
    }

    /// Returns the same response, but with different data.
    pub fn with_data(self, data: Vec<u8>, data_length: Option<usize>) -> (r: Response)
        ensures
            r.data@ == data@,
            r.data_length == data_length,
            r.status_code == self.status_code,
            r.headers == self.headers,
    {
        Response { data, data_length, ..self }
    }

    /// Builds a `Response` carrying raw bytes, with status 200 and the
    /// byte count as its length.
    pub fn from_data(data: Vec<u8>) -> (r: Response)
        ensures
            r.status_code.0 == 200,
            r.data@ == data@,
            r.data_length == Some(data@.len() as usize),
            headers_view(r.headers@) =~= Seq::<HeaderView>::empty(),
            spec_no_reserved(headers_view(r.headers@)),
    {
        let len = data.len();
        Response {
            data,
            status_code: StatusCode(200),
            headers: Vec::new(),
            data_length: Some(len),
        }
    }

    /// Builds a `Response` carrying text, with status 200, the UTF-8
    /// byte count as its length, and a text `Content-Type`.
    pub fn from_string(data: &str) -> (r: Response)
        ensures
            r.status_code.0 == 200,
            r.data@ == data.spec_bytes(),
            r.data_length == Some(data.spec_bytes().len() as usize),
            headers_view(r.headers@) =~= seq![
                HeaderView {
                    field: bytes_of("Content-Type"@),
                    value: bytes_of("text/plain; charset=UTF-8"@),
                },
            ],
            spec_no_reserved(headers_view(r.headers@)),
    {
        proof {
            reveal_strlit("Content-Type");
            reveal_strlit("text/plain; charset=UTF-8");
        }
        let bytes = data.as_bytes_vec();
        let len = bytes.len();
        let mut headers: Vec<Header> = Vec::new();
        headers.push(
            Header {
                field: HeaderField(str_bytes("Content-Type")),
                value: str_bytes("text/plain; charset=UTF-8"),
            },
        );
        let r = Response { data: bytes, status_code: StatusCode(200), headers, data_length: Some(len) };
        proof {
            assert(headers_view(r.headers@) =~= seq![r.headers@[0]@]);
            lemma_not_reserved_by_len(bytes_of("Content-Type"@));
        }
        r
    }

    /// Builds an empty `Response` with the given status code.
    pub fn empty(status_code: StatusCode) -> (r: Response)
        ensures
            r.status_code == status_code,
            r.data@ == Seq::<u8>::empty(),
            r.data_length == Some(0usize),
            headers_view(r.headers@) =~= Seq::<HeaderView>::empty(),
            spec_no_reserved(headers_view(r.headers@)),
    {
        Response {
            data: Vec::new(),
            status_code,
            headers: Vec::new(),
            data_length: Some(0),
        }
    }

    /// Same as [`Response::empty`], kept under its older name.
    pub fn new_empty(status_code: StatusCode) -> (r: Response)
        ensures
            r.status_code == status_code,
            r.data@ == Seq::<u8>::empty(),
            r.data_length == Some(0usize),
            headers_view(r.headers@) =~= Seq::<HeaderView>::empty(),
            spec_no_reserved(headers_view(r.headers@)),
    {
        Response::empty(status_code)
    }
}

/// True when the body must stay off the wire: the caller asked so (a
/// `HEAD` request), or the status is 1xx, 204 or 304, which must not
/// carry a body.
pub open spec fn spec_suppress(do_not_send_body: bool, status: u16) -> bool {
    do_not_send_body || (100 <= status <= 199) || status == 204 || status == 304
}

/// The `Connection: upgrade` and `Upgrade: <protocol>` headers put at the
/// top of an upgrade response.
pub open spec fn spec_upgrade_prefix(upgrade: Option<Seq<u8>>) -> Seq<HeaderView> {
    match upgrade {
        None => Seq::empty(),
        Some(u) => seq![
            HeaderView { field: bytes_of("Connection"@), value: bytes_of("upgrade"@) },
            HeaderView { field: bytes_of("Upgrade"@), value: u },
        ],
    }
}

/// The caller's headers with the emitter's injections: the upgrade pair
/// when upgrading, then `Server` and `Date` unless the caller set them.
pub open spec fn spec_injected_headers(
    headers: Seq<HeaderView>,
    upgrade: Option<Seq<u8>>,
    date: HTTPDate,
) -> Seq<HeaderView> {
    spec_upgrade_prefix(upgrade) + (if has_field(headers, bytes_of("Server"@)) {
        Seq::empty()
    } else {
        seq![
            HeaderView { field: bytes_of("Server"@), value: bytes_of("tiny-http (Rust)"@) },
        ]
    }) + (if has_field(headers, bytes_of("Date"@)) {
        Seq::empty()
    } else {
        seq![HeaderView { field: bytes_of("Date"@), value: spec_rfc1123(date) }]
    }) + headers
}

/// The body length the identity framing announces: the stored length
/// when one is known, else the length of the buffered body.
pub open spec fn spec_resolved_len(dl: Option<usize>, data_len: nat) -> nat {
    match dl {
        Some(l) => l as nat,
        None => data_len,
    }
}

/// The headers as printed: the injected list, then the framing header
/// that the chosen encoding requires.
pub open spec fn spec_final_headers(
    headers: Seq<HeaderView>,
    dl: Option<usize>,
    data_len: nat,
    upgrade: Option<Seq<u8>>,
    date: HTTPDate,
    te: Option<TransferEncoding>,
) -> Seq<HeaderView> {
    let base = spec_injected_headers(headers, upgrade, date);
    match te {
        None => base,
        Some(TransferEncoding::Chunked) => base.push(
            HeaderView { field: bytes_of("Transfer-Encoding"@), value: bytes_of("chunked"@) },
        ),
        Some(TransferEncoding::Identity) => base.push(
            HeaderView {
                field: bytes_of("Content-Length"@),
                value: dec(spec_resolved_len(dl, data_len)),
            },
        ),
    }
}

/// The body as printed: nothing when suppressed or upgrading, the
/// chunked coding of the data, or the identity bytes cut to the
/// announced length.
pub open spec fn spec_print_body(
    data: Seq<u8>,
    dl: Option<usize>,
    te: Option<TransferEncoding>,
    suppress: bool,
) -> Seq<u8> {
    if suppress {
        Seq::empty()
    } else {
        match te {
            None => Seq::empty(),
            Some(TransferEncoding::Chunked) => spec_encode_chunks(data, 8192),
            Some(TransferEncoding::Identity) => data.take(
                min_len(spec_resolved_len(dl, data.len()), data.len()),
            ),
        }
    }
}

/// A field name whose length matches none of the reserved names is not
/// reserved.
proof fn lemma_not_reserved_by_len(f: Seq<u8>)
    requires
        f.len() != 13,
        f.len() != 10,
        f.len() != 7,
        f.len() != 17,
    ensures
        !is_reserved_field(f),
{
    reveal_strlit("Accept-Ranges");
    reveal_strlit("Connection");
    reveal_strlit("Content-Range");
    reveal_strlit("Trailer");
    reveal_strlit("Transfer-Encoding");
    reveal_strlit("Upgrade");
    assert(lower(f).len() == f.len());
    assert(lower(bytes_of("Accept-Ranges"@)).len() == 13);
    assert(lower(bytes_of("Connection"@)).len() == 10);
    assert(lower(bytes_of("Content-Range"@)).len() == 13);
    assert(lower(bytes_of("Trailer"@)).len() == 7);
    assert(lower(bytes_of("Transfer-Encoding"@)).len() == 17);
    assert(lower(bytes_of("Upgrade"@)).len() == 7);
}

/// The printed head never carries a reserved header of the caller's:
/// on a response whose own list holds none — as every list built
/// through the constructors and [`Response::add_header`] does — any
/// reserved header among the printed ones is the emitter's own: the
/// upgrade pair, or the chunked framing header.
pub proof fn lemma_reserved_headers_are_synthesized(
    headers: Seq<HeaderView>,
    dl: Option<usize>,
    data_len: nat,
    upgrade: Option<Seq<u8>>,
    date: HTTPDate,
    te: Option<TransferEncoding>,
)
    requires
        spec_no_reserved(headers),
    ensures
        ({
            let hs = spec_final_headers(headers, dl, data_len, upgrade, date, te);
            forall|i: int|
                0 <= i < hs.len() && is_reserved_field((#[trigger] hs[i]).field) ==> {
                    ||| hs[i] == (HeaderView {
                        field: bytes_of("Connection"@),
                        value: bytes_of("upgrade"@),
                    })
                    ||| (upgrade matches Some(u) && hs[i] == (HeaderView {
                        field: bytes_of("Upgrade"@),
                        value: u,
                    }))
                    ||| hs[i] == (HeaderView {
                        field: bytes_of("Transfer-Encoding"@),
                        value: bytes_of("chunked"@),
                    })
                }
        }),
{
    reveal_strlit("Server");
    reveal_strlit("Date");
    reveal_strlit("Content-Length");
    let hs = spec_final_headers(headers, dl, data_len, upgrade, date, te);
    let base = spec_injected_headers(headers, upgrade, date);
    let pre = spec_upgrade_prefix(upgrade);
    let srv: Seq<HeaderView> = if has_field(headers, bytes_of("Server"@)) {
        Seq::empty()
    } else {
        seq![HeaderView { field: bytes_of("Server"@), value: bytes_of("tiny-http (Rust)"@) }]
    };
    let dat: Seq<HeaderView> = if has_field(headers, bytes_of("Date"@)) {
        Seq::empty()
    } else {
        seq![HeaderView { field: bytes_of("Date"@), value: spec_rfc1123(date) }]
    };
    assert forall|i: int|
        0 <= i < hs.len() && is_reserved_field((#[trigger] hs[i]).field) implies {
        ||| hs[i] == (HeaderView { field: bytes_of("Connection"@), value: bytes_of("upgrade"@) })
        ||| (upgrade matches Some(u) && hs[i] == (HeaderView {
            field: bytes_of("Upgrade"@),
            value: u,
        }))
        ||| hs[i] == (HeaderView {
            field: bytes_of("Transfer-Encoding"@),
            value: bytes_of("chunked"@),
        })
    } by {
        if i < base.len() {
            assert(hs[i] == base[i]);
            if i < pre.len() {
                assert(base[i] == pre[i]);
            } else if i < pre.len() + srv.len() {
                assert(base[i] == srv[i - pre.len()]);
                lemma_not_reserved_by_len(bytes_of("Server"@));
            } else if i < pre.len() + srv.len() + dat.len() {
                assert(base[i] == dat[i - pre.len() - srv.len()]);
                lemma_not_reserved_by_len(bytes_of("Date"@));
            } else {
                assert(base[i] == headers[i - pre.len() - srv.len() - dat.len()]);
            }
        } else {
            match te {
                None => {
                    assert(false);
                },
                Some(TransferEncoding::Chunked) => {
                    assert(hs[i] == (HeaderView {
                        field: bytes_of("Transfer-Encoding"@),
                        value: bytes_of("chunked"@),
                    }));
                },
                Some(TransferEncoding::Identity) => {
                    assert(hs[i] == (HeaderView {
                        field: bytes_of("Content-Length"@),
                        value: dec(spec_resolved_len(dl, data_len)),
                    }));
                    lemma_not_reserved_by_len(bytes_of("Content-Length"@));
                },
            }
        }
    }
}

/// The complete print of a response: status line, headers, blank line,
/// then the framed body.
pub open spec fn spec_print(
    data: Seq<u8>,
    status: u16,
    headers: Seq<HeaderView>,
    dl: Option<usize>,
    ver: HTTPVersion,
    req_headers: Seq<HeaderView>,
    do_not_send_body: bool,
    upgrade: Option<Seq<u8>>,
    date: HTTPDate,
) -> Seq<u8> {
    let te = match upgrade {
        Some(_) => None,
        None => Some(spec_choose_te(req_headers, ver, dl, false)),
    };
    spec_status_line(ver, status) + headers_bytes(
        spec_final_headers(headers, dl, data.len(), upgrade, date, te),
    ) + crlf() + spec_print_body(data, dl, te, spec_suppress(do_not_send_body, status))
}

/// A suppressed body leaves the wire right after the blank line: with
/// `do_not_send_body` set, or with a 1xx, 204 or 304 status, the print
/// is the head alone, whatever body the response carries.
pub proof fn lemma_suppressed_body_is_empty(
    data: Seq<u8>,
    status: u16,
    headers: Seq<HeaderView>,
    dl: Option<usize>,
    ver: HTTPVersion,
    req_headers: Seq<HeaderView>,
    do_not_send_body: bool,
    upgrade: Option<Seq<u8>>,
    date: HTTPDate,
)
    requires
        spec_suppress(do_not_send_body, status),
    ensures
        ({
            let te = match upgrade {
                Some(_) => None,
                None => Some(spec_choose_te(req_headers, ver, dl, false)),
            };
            spec_print(data, status, headers, dl, ver, req_headers, do_not_send_body, upgrade, date)
                =~= spec_status_line(ver, status) + headers_bytes(
                spec_final_headers(headers, dl, data.len(), upgrade, date, te),
            ) + crlf()
        }),
{
}

impl Response {
    /// Prints the HTTP response with the given date in its `Date` header;
    /// the byte-for-byte result is [`spec_print`].
    #[verifier::rlimit(100)]
    pub fn print_with_date(
        self,
        http_version: HTTPVersion,
        request_headers: &Vec<Header>,
        do_not_send_body: bool,
        upgrade: Option<&Vec<u8>>,
        date: HTTPDate,
    ) -> (r: Vec<u8>)
        ensures
            r@ == spec_print(
                self.data@,
                self.status_code.0,
                headers_view(self.headers@),
                self.data_length,
                http_version,
                headers_view(request_headers@),
                do_not_send_body,
                opt_vec_view(upgrade),
                date,
            ),
    {
        proof {
            reveal_strlit("Connection");
            reveal_strlit("upgrade");
            reveal_strlit("Upgrade");
            reveal_strlit("Server");
            reveal_strlit("tiny-http (Rust)");
            reveal_strlit("Date");
            reveal_strlit("Transfer-Encoding");
            reveal_strlit("chunked");
            reveal_strlit("Content-Length");
        }
        let ghost hv = headers_view(self.headers@);
        let te: Option<TransferEncoding> = match upgrade {
            Some(_) => None,
            None => Some(
                choose_transfer_encoding(request_headers, &http_version, &self.data_length, false),
            ),
        };
        let has_server = match find_header(&self.headers, "Server") {
            Some(_) => true,
            None => false,
        };
        let has_date = match find_header(&self.headers, "Date") {
            Some(_) => true,
            None => false,
        };
        let mut hs: Vec<Header> = Vec::new();
        match upgrade {
            Some(u) => {
                hs.push(
                    Header { field: HeaderField(str_bytes("Connection")), value: str_bytes("upgrade") },
                );
                hs.push(
                    Header {
                        field: HeaderField(str_bytes("Upgrade")),
                        value: crate::bytes::sub_vec(u, 0, u.len()),
                    },
                );
            },
            None => {},
        }
        if !has_server {
            hs.push(
                Header {
                    field: HeaderField(str_bytes("Server")),
                    value: str_bytes("tiny-http (Rust)"),
                },
            );
        }
        if !has_date {
            hs.push(Header { field: HeaderField(str_bytes("Date")), value: date.to_bytes() });
        }
        let ghost prefix = hs@;
        proof {
            assert(headers_view(prefix) =~~= spec_upgrade_prefix(opt_vec_view(upgrade)) + (
            if has_field(hv, bytes_of("Server"@)) {
                Seq::<HeaderView>::empty()
            } else {
                seq![
                    HeaderView { field: bytes_of("Server"@), value: bytes_of("tiny-http (Rust)"@) },
                ]
            }) + (if has_field(hv, bytes_of("Date"@)) {
                Seq::<HeaderView>::empty()
            } else {
                seq![HeaderView { field: bytes_of("Date"@), value: spec_rfc1123(date) }]
            }));
        }
        let mut rest = self.headers;
        hs.append(&mut rest);
        proof {
            lemma_headers_view_concat(prefix, self.headers@);
            assert(headers_view(hs@) =~~= spec_injected_headers(hv, opt_vec_view(upgrade), date));
        }
        let ghost base = headers_view(hs@);
        let resolved_len: usize = match self.data_length {
            Some(l) => l,
            None => self.data.len(),
        };
        match te {
            Some(TransferEncoding::Chunked) => {
                hs.push(
                    Header {
                        field: HeaderField(str_bytes("Transfer-Encoding")),
                        value: str_bytes("chunked"),
                    },
                );
                proof {
                    assert(headers_view(hs@) =~~= base.push(hs@.last()@));
                }
            },
            Some(TransferEncoding::Identity) => {
                let mut value: Vec<u8> = Vec::new();
                push_dec(&mut value, resolved_len as u64);
                hs.push(Header { field: HeaderField(str_bytes("Content-Length")), value });
                proof {
                    assert(headers_view(hs@) =~~= base.push(hs@.last()@));
                }
            },
            None => {},
        }
        proof {
            assert(headers_view(hs@) =~~= spec_final_headers(
                hv,
                self.data_length,
                self.data@.len(),
                opt_vec_view(upgrade),
                date,
                te,
            ));
        }
        // The head: status line, headers, blank line.
        let mut out: Vec<u8> = Vec::new();
        write_message_header(&mut out, &http_version, &self.status_code, &hs);
        let ghost head = out@;
        // Whether the body stays off the wire.
        let status = self.status_code.0;
        let suppress = do_not_send_body || (100 <= status && status <= 199) || status == 204
            || status == 304;
        if !suppress {
            match te {
                Some(TransferEncoding::Chunked) => {
                    let encoded = encode_all(&self.data, 8192);
                    out.extend_from_slice(encoded.as_slice());
                },
                Some(TransferEncoding::Identity) => {
                    if resolved_len >= 1 {
                        let m = if resolved_len < self.data.len() {
                            resolved_len
                        } else {
                            self.data.len()
                        };
                        let part = crate::bytes::sub_vec(&self.data, 0, m);
                        out.extend_from_slice(part.as_slice());
                        proof {
                            assert(part@ =~= self.data@.take(
                                min_len(
                                    spec_resolved_len(self.data_length, self.data@.len()),
                                    self.data@.len(),
                                ),
                            ));
                        }
                    } else {
                        proof {
                            assert(self.data@.take(
                                min_len(
                                    spec_resolved_len(self.data_length, self.data@.len()),
                                    self.data@.len(),
                                ),
                            ) =~= Seq::<u8>::empty());
                        }
                    }
                },
                None => {},
            }
        }
        assert(out@ =~= spec_print(
            self.data@,
            self.status_code.0,
            hv,
            self.data_length,
            http_version,
            headers_view(request_headers@),
            do_not_send_body,
            opt_vec_view(upgrade),
            date,
        ));
        out
    }

    /// Prints the HTTP response to a byte vector, stamping the current
    /// date into its `Date` header.
    ///
    /// This function produces the bytes that go to the client's socket,
    /// so nothing here is pretty-printed. The HTTP version and headers of
    /// the request are used to decide which features (most notably,
    /// encoding) to use.
    pub fn raw_print(
        self,
        http_version: HTTPVersion,
        request_headers: &Vec<Header>,
        do_not_send_body: bool,
        upgrade: Option<&Vec<u8>>,
    ) -> (r: Vec<u8>)
        ensures
            exists|d: HTTPDate|
                r@ == #[trigger] spec_print(
                    self.data@,
                    self.status_code.0,
                    headers_view(self.headers@),
                    self.data_length,
                    http_version,
                    headers_view(request_headers@),
                    do_not_send_body,
                    opt_vec_view(upgrade),
                    d,
                ),
    {
        let ghost gdata = self.data@;
        let ghost gstatus = self.status_code.0;
        let ghost gheaders = headers_view(self.headers@);
        let ghost glen = self.data_length;
        let date = HTTPDate::new();
        let r = self.print_with_date(
            http_version,
            request_headers,
            do_not_send_body,
            upgrade,
            date,
        );
        proof {
            let up = opt_vec_view(upgrade);
            assert(r@ == spec_print(
                gdata,
                gstatus,
                gheaders,
                glen,
                http_version,
                headers_view(request_headers@),
                do_not_send_body,
                up,
                date,
            ));
            assert(exists|d: HTTPDate|
                r@ == #[trigger] spec_print(
                    gdata,
                    gstatus,
                    gheaders,
                    glen,
                    http_version,
                    headers_view(request_headers@),
                    do_not_send_body,
                    up,
                    d,
                ));
        }
        r
    }
}

} // verus!
