//! The vocabulary of HTTP/1.x messages: status codes, methods, headers
//! and protocol versions, with byte-exact parsing specifications.
use vstd::prelude::*;

use crate::bytes::{
    lower_byte,
    bytes_of, contains_seq, eq_ignore_case, is_ascii_bytes, lower, str_bytes, to_lower_vec,
    trim, trim_vec,
};

verus! {

/// Status code of a request or response, as a 16-bit number; codes
/// order as their numbers do.
#[derive(Clone, Copy, Debug, PartialEq, Eq, Structural, Hash, PartialOrd, Ord)]
pub struct StatusCode(pub u16);

pub open spec fn spec_reason_phrase(code: u16) -> Seq<char> {
    if code == 100 {
        "Continue"@
    } else     if code == 101 {
        "Switching Protocols"@
    } else     if code == 102 {
        "Processing"@
    } else     if code == 118 {
        "Connection timed out"@
    } else     if code == 200 {
        "OK"@
    } else     if code == 201 {
        "Created"@
    } else     if code == 202 {
        "Accepted"@
    } else     if code == 203 {
        "Non-Authoritative Information"@
    } else     if code == 204 {
        "No Content"@
    } else     if code == 205 {
        "Reset Content"@
    } else     if code == 206 {
        "Partial Content"@
    } else     if code == 207 {
        "Multi-Status"@
    } else     if code == 210 {
        "Content Different"@
    } else     if code == 300 {
        "Multiple Choices"@
    } else     if code == 301 {
        "Moved Permanently"@
    } else     if code == 302 {
        "Found"@
    } else     if code == 303 {
        "See Other"@
    } else     if code == 304 {
        "Not Modified"@
    } else     if code == 305 {
        "Use Proxy"@
    } else     if code == 307 {
        "Temporary Redirect"@
    } else     if code == 400 {
        "Bad Request"@
    } else     if code == 401 {
        "Unauthorized"@
    } else     if code == 402 {
        "Payment Required"@
    } else     if code == 403 {
        "Forbidden"@
    } else     if code == 404 {
        "Not Found"@
    } else     if code == 405 {
        "Method Not Allowed"@
    } else     if code == 406 {
        "Not Acceptable"@
    } else     if code == 407 {
        "Proxy Authentication Required"@
    } else     if code == 408 {
        "Request Time-out"@
    } else     if code == 409 {
        "Conflict"@
    } else     if code == 410 {
        "Gone"@
    } else     if code == 411 {
        "Length Required"@
    } else     if code == 412 {
        "Precondition Failed"@
    } else     if code == 413 {
        "Request Entity Too Large"@
    } else     if code == 414 {
        "Reques-URI Too Large"@
    } else     if code == 415 {
        "Unsupported Media Type"@
    } else     if code == 416 {
        "Request range not satisfiable"@
    } else     if code == 417 {
        "Expectation Failed"@
    } else     if code == 500 {
        "Internal Server Error"@
    } else     if code == 501 {
        "Not Implemented"@
    } else     if code == 502 {
        "Bad Gateway"@
    } else     if code == 503 {
        "Service Unavailable"@
    } else     if code == 504 {
        "Gateway Time-out"@
    } else     if code == 505 {
        "HTTP Version not supported"@
    } else {
        "Unknown"@
    }
}

impl StatusCode {
    /// Returns the default reason phrase for this status code.
    /// For example the status code 404 corresponds to "Not Found".
    pub fn default_reason_phrase(&self) -> (r: &'static str)
        ensures
            r@ == spec_reason_phrase(self.0),
            r.is_ascii(),
    {
        let code = self.0;
        if code == 100 {
            proof {
                reveal_strlit("Continue");
            }
            return "Continue";
        }
        if code == 101 {
            proof {
                reveal_strlit("Switching Protocols");
            }
            return "Switching Protocols";
        }
        if code == 102 {
            proof {
                reveal_strlit("Processing");
            }
            return "Processing";
        }
        if code == 118 {
            proof {
                reveal_strlit("Connection timed out");
            }
            return "Connection timed out";
        }
        if code == 200 {
            proof {
                reveal_strlit("OK");
            }
            return "OK";
        }
        if code == 201 {
            proof {
                reveal_strlit("Created");
            }
            return "Created";
        }
        if code == 202 {
            proof {
                reveal_strlit("Accepted");
            }
            return "Accepted";
        }
        if code == 203 {
            proof {
                reveal_strlit("Non-Authoritative Information");
            }
            return "Non-Authoritative Information";
        }
        if code == 204 {
            proof {
                reveal_strlit("No Content");
            }
            return "No Content";
        }
        if code == 205 {
            proof {
                reveal_strlit("Reset Content");
            }
            return "Reset Content";
        }
        if code == 206 {
            proof {
                reveal_strlit("Partial Content");
            }
            return "Partial Content";
        }
        if code == 207 {
            proof {
                reveal_strlit("Multi-Status");
            }
            return "Multi-Status";
        }
        if code == 210 {
            proof {
                reveal_strlit("Content Different");
            }
            return "Content Different";
        }
        if code == 300 {
            proof {
                reveal_strlit("Multiple Choices");
            }
            return "Multiple Choices";
        }
        if code == 301 {
            proof {
                reveal_strlit("Moved Permanently");
            }
            return "Moved Permanently";
        }
        if code == 302 {
            proof {
                reveal_strlit("Found");
            }
            return "Found";
        }
        if code == 303 {
            proof {
                reveal_strlit("See Other");
            }
            return "See Other";
        }
        if code == 304 {
            proof {
                reveal_strlit("Not Modified");
            }
            return "Not Modified";
        }
        if code == 305 {
            proof {
                reveal_strlit("Use Proxy");
            }
            return "Use Proxy";
        }
        if code == 307 {
            proof {
                reveal_strlit("Temporary Redirect");
            }
            return "Temporary Redirect";
        }
        if code == 400 {
            proof {
                reveal_strlit("Bad Request");
            }
            return "Bad Request";
        }
        if code == 401 {
            proof {
                reveal_strlit("Unauthorized");
            }
            return "Unauthorized";
        }
        if code == 402 {
            proof {
                reveal_strlit("Payment Required");
            }
            return "Payment Required";
        }
        if code == 403 {
            proof {
                reveal_strlit("Forbidden");
            }
            return "Forbidden";
        }
        if code == 404 {
            proof {
                reveal_strlit("Not Found");
            }
            return "Not Found";
        }
        if code == 405 {
            proof {
                reveal_strlit("Method Not Allowed");
            }
            return "Method Not Allowed";
        }
        if code == 406 {
            proof {
                reveal_strlit("Not Acceptable");
            }
            return "Not Acceptable";
        }
        if code == 407 {
            proof {
                reveal_strlit("Proxy Authentication Required");
            }
            return "Proxy Authentication Required";
        }
        if code == 408 {
            proof {
                reveal_strlit("Request Time-out");
            }
            return "Request Time-out";
        }
        if code == 409 {
            proof {
                reveal_strlit("Conflict");
            }
            return "Conflict";
        }
        if code == 410 {
            proof {
                reveal_strlit("Gone");
            }
            return "Gone";
        }
        if code == 411 {
            proof {
                reveal_strlit("Length Required");
            }
            return "Length Required";
        }
        if code == 412 {
            proof {
                reveal_strlit("Precondition Failed");
            }
            return "Precondition Failed";
        }
        if code == 413 {
            proof {
                reveal_strlit("Request Entity Too Large");
            }
            return "Request Entity Too Large";
        }
        if code == 414 {
            proof {
                reveal_strlit("Reques-URI Too Large");
            }
            return "Reques-URI Too Large";
        }
        if code == 415 {
            proof {
                reveal_strlit("Unsupported Media Type");
            }
            return "Unsupported Media Type";
        }
        if code == 416 {
            proof {
                reveal_strlit("Request range not satisfiable");
            }
            return "Request range not satisfiable";
        }
        if code == 417 {
            proof {
                reveal_strlit("Expectation Failed");
            }
            return "Expectation Failed";
        }
        if code == 500 {
            proof {
                reveal_strlit("Internal Server Error");
            }
            return "Internal Server Error";
        }
        if code == 501 {
            proof {
                reveal_strlit("Not Implemented");
            }
            return "Not Implemented";
        }
        if code == 502 {
            proof {
                reveal_strlit("Bad Gateway");
            }
            return "Bad Gateway";
        }
        if code == 503 {
            proof {
                reveal_strlit("Service Unavailable");
            }
            return "Service Unavailable";
        }
        if code == 504 {
            proof {
                reveal_strlit("Gateway Time-out");
            }
            return "Gateway Time-out";
        }
        if code == 505 {
            proof {
                reveal_strlit("HTTP Version not supported");
            }
            return "HTTP Version not supported";
        }
        proof {
            reveal_strlit("Unknown");
        }
        "Unknown"
    }
}

/// HTTP request methods, as per RFC 7231 and RFC 5789.
///
/// The nine standard methods have their own variants; any other token is
/// carried verbatim. Two methods are equal when their tokens are equal up
/// to ASCII case.
#[derive(Clone, Debug)]
pub enum Method {
    /// `GET`
    Get,
    /// `HEAD`
    Head,
    /// `POST`
    Post,
    /// `PUT`
    Put,
    /// `DELETE`
    Delete,
    /// `CONNECT`
    Connect,
    /// `OPTIONS`
    Options,
    /// `TRACE`
    Trace,
    /// `PATCH`
    Patch,
    /// Request methods not standardized by the IETF, as their raw token.
    NonStandard(Vec<u8>),
}

/// The wire token of a method.
pub open spec fn spec_method_token(m: Method) -> Seq<u8> {
    match m {
        Method::Get => bytes_of("GET"@),
        Method::Head => bytes_of("HEAD"@),
        Method::Post => bytes_of("POST"@),
        Method::Put => bytes_of("PUT"@),
        Method::Delete => bytes_of("DELETE"@),
        Method::Connect => bytes_of("CONNECT"@),
        Method::Options => bytes_of("OPTIONS"@),
        Method::Trace => bytes_of("TRACE"@),
        Method::Patch => bytes_of("PATCH"@),
        Method::NonStandard(t) => t@,
    }
}

/// True when the token spells `lit`, ignoring ASCII case.
pub open spec fn token_is(t: Seq<u8>, lit: Seq<char>) -> bool {
    lower(t) == lower(bytes_of(lit))
}

/// True when the token names one of the nine standard methods.
pub open spec fn is_standard_method_token(t: Seq<u8>) -> bool {
    ||| token_is(t, "GET"@)
    ||| token_is(t, "HEAD"@)
    ||| token_is(t, "POST"@)
    ||| token_is(t, "PUT"@)
    ||| token_is(t, "DELETE"@)
    ||| token_is(t, "CONNECT"@)
    ||| token_is(t, "OPTIONS"@)
    ||| token_is(t, "TRACE"@)
    ||| token_is(t, "PATCH"@)
}

/// The method named by a token, ignoring ASCII case on the standard
/// methods; an unknown token is carried verbatim.
pub open spec fn spec_method_matches(t: Seq<u8>, m: Method) -> bool {
    match m {
        Method::Get => token_is(t, "GET"@),
        Method::Head => token_is(t, "HEAD"@),
        Method::Post => token_is(t, "POST"@),
        Method::Put => token_is(t, "PUT"@),
        Method::Delete => token_is(t, "DELETE"@),
        Method::Connect => token_is(t, "CONNECT"@),
        Method::Options => token_is(t, "OPTIONS"@),
        Method::Trace => token_is(t, "TRACE"@),
        Method::Patch => token_is(t, "PATCH"@),
        Method::NonStandard(s) => s@ == t && !is_standard_method_token(t),
    }
}

/// A byte string whose ASCII lowercase equals that of an all-ASCII byte
/// string is itself all ASCII.
pub proof fn lemma_lower_eq_ascii(a: Seq<u8>, b: Seq<u8>)
    requires
        lower(a) == lower(b),
        is_ascii_bytes(b),
    ensures
        is_ascii_bytes(a),
{
    assert(lower(a).len() == a.len());
    assert(lower(b).len() == b.len());
    assert forall|i: int| 0 <= i < a.len() implies a[i] < 128 by {
        assert(lower(a)[i] == lower_byte(a[i]));
        assert(lower(b)[i] == lower_byte(b[i]));
        assert(b[i] < 128);
    }
}

impl Method {
    /// The wire token of this method, `GET` for `Get` and so on; a
    /// non-standard method yields its raw token.
    pub fn as_str(&self) -> (r: Vec<u8>)
        ensures
            r@ == spec_method_token(*self),
    {
        proof {
            reveal_strlit("GET");
            reveal_strlit("HEAD");
            reveal_strlit("POST");
            reveal_strlit("PUT");
            reveal_strlit("DELETE");
            reveal_strlit("CONNECT");
            reveal_strlit("OPTIONS");
            reveal_strlit("TRACE");
            reveal_strlit("PATCH");
        }
        match self {
            Method::Get => str_bytes("GET"),
            Method::Head => str_bytes("HEAD"),
            Method::Post => str_bytes("POST"),
            Method::Put => str_bytes("PUT"),
            Method::Delete => str_bytes("DELETE"),
            Method::Connect => str_bytes("CONNECT"),
            Method::Options => str_bytes("OPTIONS"),
            Method::Trace => str_bytes("TRACE"),
            Method::Patch => str_bytes("PATCH"),
            Method::NonStandard(t) => {
                let mut out: Vec<u8> = Vec::new();
                out.extend_from_slice(t.as_slice());
                assert(out@ =~= t@);
                out
            },
        }
    }

    /// Reads a method token, ignoring ASCII case on the nine standard
    /// methods. `None` exactly when the token is not ASCII.
    pub fn parse(token: &Vec<u8>) -> (r: Option<Method>)
        ensures
            match r {
                Some(m) => is_ascii_bytes(token@) && spec_method_matches(token@, m),
                None => !is_ascii_bytes(token@),
            },
    {
        proof {
            reveal_strlit("GET");
            reveal_strlit("HEAD");
            reveal_strlit("POST");
            reveal_strlit("PUT");
            reveal_strlit("DELETE");
            reveal_strlit("CONNECT");
            reveal_strlit("OPTIONS");
            reveal_strlit("TRACE");
            reveal_strlit("PATCH");
        }
        let r = Self::parse_inner(token);
        proof {
            if r is Some && !(r.unwrap() is NonStandard) {
                lemma_lower_eq_ascii(token@, spec_method_token(r.unwrap()));
            }
        }
        r
    }

    fn parse_inner(token: &Vec<u8>) -> (r: Option<Method>)
        ensures
            match r {
                Some(m) => spec_method_matches(token@, m) && (m is NonStandard
                    ==> is_ascii_bytes(token@)) && (!(m is NonStandard) ==> is_ascii_bytes(
                    spec_method_token(m),
                )),
                None => !is_ascii_bytes(token@),
            },
    {
        proof {
            reveal_strlit("GET");
            reveal_strlit("HEAD");
            reveal_strlit("POST");
            reveal_strlit("PUT");
            reveal_strlit("DELETE");
            reveal_strlit("CONNECT");
            reveal_strlit("OPTIONS");
            reveal_strlit("TRACE");
            reveal_strlit("PATCH");
        }
        if eq_ignore_case(token, &str_bytes("GET")) {
            Some(Method::Get)
        } else if eq_ignore_case(token, &str_bytes("HEAD")) {
            Some(Method::Head)
        } else if eq_ignore_case(token, &str_bytes("POST")) {
            Some(Method::Post)
        } else if eq_ignore_case(token, &str_bytes("PUT")) {
            Some(Method::Put)
        } else if eq_ignore_case(token, &str_bytes("DELETE")) {
            Some(Method::Delete)
        } else if eq_ignore_case(token, &str_bytes("CONNECT")) {
            Some(Method::Connect)
        } else if eq_ignore_case(token, &str_bytes("OPTIONS")) {
            Some(Method::Options)
        } else if eq_ignore_case(token, &str_bytes("TRACE")) {
            Some(Method::Trace)
        } else if eq_ignore_case(token, &str_bytes("PATCH")) {
            Some(Method::Patch)
        } else {
            let mut i: usize = 0;
            while i < token.len()
                invariant
                    i <= token@.len(),
                    forall|k: int| 0 <= k < i ==> token@[k] < 128,
                decreases token@.len() - i,
            {
                if token[i] >= 128 {
                    return None;
                }
                i = i + 1;
            }
            let mut t: Vec<u8> = Vec::new();
            t.extend_from_slice(token.as_slice());
            assert(t@ =~= token@);
            Some(Method::NonStandard(t))
        }
    }
}

impl PartialEq for Method {
    fn eq(&self, other: &Method) -> (r: bool) {
        match (self, other) {
            (Method::NonStandard(s1), Method::NonStandard(s2)) => eq_ignore_case(s1, s2),
            (Method::Get, Method::Get) => true,
            (Method::Head, Method::Head) => true,
            (Method::Post, Method::Post) => true,
            (Method::Put, Method::Put) => true,
            (Method::Delete, Method::Delete) => true,
            (Method::Connect, Method::Connect) => true,
            (Method::Options, Method::Options) => true,
            (Method::Trace, Method::Trace) => true,
            (Method::Patch, Method::Patch) => true,
            _ => false,
        }
    }
}

impl vstd::std_specs::cmp::PartialEqSpecImpl for Method {
    open spec fn obeys_eq_spec() -> bool {
        true
    }

    open spec fn eq_spec(&self, other: &Method) -> bool {
        match (self, other) {
            (Method::NonStandard(s1), Method::NonStandard(s2)) => lower(s1@) == lower(s2@),
            (Method::Get, Method::Get) => true,
            (Method::Head, Method::Head) => true,
            (Method::Post, Method::Post) => true,
            (Method::Put, Method::Put) => true,
            (Method::Delete, Method::Delete) => true,
            (Method::Connect, Method::Connect) => true,
            (Method::Options, Method::Options) => true,
            (Method::Trace, Method::Trace) => true,
            (Method::Patch, Method::Patch) => true,
            _ => false,
        }
    }
}

impl Eq for Method {}

/// Field of a header (eg. `Content-Type`, `Content-Length`, etc.), an
/// ASCII token. Two fields are equal when their bytes are equal up to
/// ASCII case.
#[derive(Clone, Debug)]
pub struct HeaderField(pub Vec<u8>);

impl HeaderField {
    /// Builds a field from raw bytes; hands the bytes back when they are
    /// not all ASCII.
    pub fn from_bytes(bytes: Vec<u8>) -> (r: Result<HeaderField, Vec<u8>>)
        ensures
            match r {
                Ok(f) => is_ascii_bytes(bytes@) && f.0@ == bytes@,
                Err(b) => !is_ascii_bytes(bytes@) && b@ == bytes@,
            },
    {
        let mut i: usize = 0;
        while i < bytes.len()
            invariant
                i <= bytes@.len(),
                forall|k: int| 0 <= k < i ==> bytes@[k] < 128,
            decreases bytes@.len() - i,
        {
            if bytes[i] >= 128 {
                return Err(bytes);
            }
            i = i + 1;
        }
        Ok(HeaderField(bytes))
    }

    /// The ASCII bytes of the field name.
    pub fn as_str(&self) -> (r: &Vec<u8>)
        ensures
            r@ == self.0@,
    {
        &self.0
    }

    /// True when the field name equals `other` up to ASCII case.
    pub fn equiv(&self, other: &str) -> (r: bool)
        ensures
            r == (other.is_ascii() && lower(self.0@) == lower(bytes_of(other@))),
    {
        if !other.is_ascii() {
            return false;
        }
        let ob = str_bytes(other);
        eq_ignore_case(&self.0, &ob)
    }
}

impl PartialEq for HeaderField {
    fn eq(&self, other: &HeaderField) -> (r: bool) {
        eq_ignore_case(&self.0, &other.0)
    }
}

impl vstd::std_specs::cmp::PartialEqSpecImpl for HeaderField {
    open spec fn obeys_eq_spec() -> bool {
        true
    }

    open spec fn eq_spec(&self, other: &HeaderField) -> bool {
        lower(self.0@) == lower(other.0@)
    }
}

impl Eq for HeaderField {}

/// Represents an HTTP header: an ASCII field name and an ASCII value.
#[derive(Clone, Debug)]
pub struct Header {
    pub field: HeaderField,
    pub value: Vec<u8>,
}

/// The view of a header: its field-name bytes and value bytes.
#[verifier::ext_equal]
pub struct HeaderView {
    pub field: Seq<u8>,
    pub value: Seq<u8>,
}

impl View for Header {
    type V = HeaderView;

    open spec fn view(&self) -> HeaderView {
        HeaderView { field: self.field.0@, value: self.value@ }
    }
}

/// The header a line names: the bytes before the first `:` (trimmed)
/// are the field, the bytes after it (trimmed) are the value; an
/// all-ASCII line with a `:` is required.
pub open spec fn spec_parse_header(line: Seq<u8>) -> Option<HeaderView> {
    if !is_ascii_bytes(line) {
        None
    } else {
        match crate::bytes::find(line, 58) {
            None => None,
            Some(i) => Some(
                HeaderView { field: trim(line.take(i)), value: trim(line.skip(i + 1)) },
            ),
        }
    }
}

impl Header {
    /// An equal copy of this header.
    pub fn clone_header(&self) -> (r: Header)
        ensures
            r@ == self@,
    {
        let r = Header {
            field: HeaderField(crate::bytes::sub_vec(&self.field.0, 0, self.field.0.len())),
            value: crate::bytes::sub_vec(&self.value, 0, self.value.len()),
        };
        assert(r@ =~= self@);
        r
    }

    /// Builds a header from a field name and a value, each given as raw
    /// bytes; fails exactly when either is not all ASCII.
    pub fn from_bytes(header: Vec<u8>, value: Vec<u8>) -> (r: Result<Header, ()>)
        ensures
            match r {
                Ok(h) => is_ascii_bytes(header@) && is_ascii_bytes(value@) && h@.field == header@
                    && h@.value == value@,
                Err(_) => !(is_ascii_bytes(header@) && is_ascii_bytes(value@)),
            },
    {
        let ghost hv = header@;
        let field = match HeaderField::from_bytes(header) {
            Ok(f) => f,
            Err(_) => {
                return Err(());
            },
        };
        let mut i: usize = 0;
        while i < value.len()
            invariant
                i <= value@.len(),
                forall|k: int| 0 <= k < i ==> value@[k] < 128,
            decreases value@.len() - i,
        {
            if value[i] >= 128 {
                return Err(());
            }
            i = i + 1;
        }
        Ok(Header { field, value })
    }

    /// Reads one header line: the bytes before the first `:` (trimmed)
    /// name the field, the bytes after it (trimmed) are the value. `None`
    /// when there is no `:` or the line is not all ASCII.
    pub fn parse(line: &Vec<u8>) -> (r: Option<Header>)
        ensures
            match r {
                Some(h) => spec_parse_header(line@) == Some(h@),
                None => spec_parse_header(line@) is None,
            },
    {
        let colon = match crate::bytes::find_first(line, 58) {
            Some(i) => i,
            None => {
                return None;
            },
        };
        let mut i: usize = 0;
        while i < line.len()
            invariant
                i <= line@.len(),
                forall|k: int| 0 <= k < i ==> line@[k] < 128,
            decreases line@.len() - i,
        {
            if line[i] >= 128 {
                assert(!is_ascii_bytes(line@));
                return None;
            }
            i = i + 1;
        }
        assert(is_ascii_bytes(line@));
        let llen = line.len();
        let raw_field = crate::bytes::sub_vec(line, 0, colon);
        let raw_value = crate::bytes::sub_vec(line, colon + 1, llen);
        proof {
            assert(raw_field@ =~= line@.take(colon as int));
            assert(raw_value@ =~= line@.skip(colon + 1));
        }
        let field = trim_vec(&raw_field);
        let value = trim_vec(&raw_value);
        let h = Header { field: HeaderField(field), value };
        assert(h@ =~= spec_parse_header(line@).unwrap());
        Some(h)
    }
}

/// HTTP version (usually 1.0 or 1.1): major then minor, ordered
/// lexicographically.
#[derive(Clone, Copy, Debug, PartialEq, Eq, Structural, Hash, PartialOrd, Ord)]
pub struct HTTPVersion(pub u8, pub u8);

impl HTTPVersion {
    /// True when this version is above the given major and minor numbers,
    /// in lexicographic order.
    pub fn is_above(&self, major: u8, minor: u8) -> (r: bool)
        ensures
            r == (self.0 > major || (self.0 == major && self.1 > minor)),
    {
        self.0 > major || (self.0 == major && self.1 > minor)
    }

    /// True when this version is at or below the given major and minor
    /// numbers, in lexicographic order.
    pub fn is_at_most(&self, major: u8, minor: u8) -> (r: bool)
        ensures
            r == (self.0 < major || (self.0 == major && self.1 <= minor)),
    {
        self.0 < major || (self.0 == major && self.1 <= minor)
    }
}

} // verus!
