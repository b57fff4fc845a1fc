//! End-to-end tests driving one connection over in-memory bytes.
use tiny_http::ClientConnection;
use tiny_http::Header;
use tiny_http::Method;
use tiny_http::Response;
use tiny_http::StatusCode;

fn conn(input: &[u8]) -> ClientConnection {
    ClientConnection::new(input.to_vec(), b"127.0.0.1:4242".to_vec(), false)
}

fn find_sub(haystack: &[u8], needle: &[u8]) -> Option<usize> {
    if needle.len() > haystack.len() {
        return None;
    }
    (0..=haystack.len() - needle.len()).find(|&i| &haystack[i..i + needle.len()] == needle)
}

#[test]
fn basic_handling() {
    let mut server = conn(b"GET / HTTP/1.1\r\nHost: localhost\r\nConnection: close\r\n\r\n");

    let request = server.next().unwrap();
    assert!(*request.method() == Method::Get);
    assert!(request.url() == &b"/".to_vec());
    let w = request.respond(Response::from_string("hello world"));
    server.sink.finish(w);

    assert!(server.next().is_none());

    let content = server.sink.wire.clone();
    assert!(content.starts_with(b"HTTP/1.1 200 OK\r\n"));
    assert!(content.ends_with(b"hello world"));
}

#[test]
fn basic_string_input() {
    let mut server = conn(
        b"GET / HTTP/1.1\r\nHost: localhost\r\nContent-Type: text/plain; charset=utf8\r\nContent-Length: 5\r\n\r\nhello",
    );

    let mut request = server.next().unwrap();

    let output = request.as_reader().read_to_end().unwrap();
    assert_eq!(output, b"hello".to_vec());
}

#[test]
fn wrong_content_length() {
    let mut server = conn(
        b"GET / HTTP/1.1\r\nHost: localhost\r\nContent-Type: text/plain; charset=utf8\r\nContent-Length: 3\r\n\r\nhello",
    );

    let mut request = server.next().unwrap();

    let output = request.as_reader().read_to_end().unwrap();
    assert_eq!(output, b"hel".to_vec());
}

#[test]
fn expect_100_continue() {
    let mut server = conn(
        b"GET / HTTP/1.1\r\nHost: localhost\r\nConnection: close\r\nExpect: 100-continue\r\nContent-Type: text/plain; charset=utf8\r\nContent-Length: 5\r\n\r\nhello",
    );

    let mut request = server.next().unwrap();

    // Nothing goes toward the client before the body is first read.
    assert!(request.response_writer.buffer.is_empty());

    let output = request.as_reader().read_to_end().unwrap();
    assert_eq!(output, b"hello".to_vec());

    // The first body read put a `100 Continue` response in front of the
    // eventual answer.
    assert!(request.response_writer.buffer.starts_with(b"HTTP/1.1 100 Continue\r\n"));
}

#[test]
fn unsupported_expect_header() {
    let mut server = conn(
        b"GET / HTTP/1.1\r\nHost: localhost\r\nConnection: close\r\nExpect: 189-dummy\r\nContent-Type: text/plain; charset=utf8\r\n\r\n",
    );

    assert!(server.next().is_none());

    let content = server.sink.wire.clone();
    assert!(content[9..].starts_with(b"417"));
}

#[test]
fn header_without_colon_is_rejected() {
    let mut server = conn(b"GET / HTTP/1.1\r\nHost localhost\r\n\r\n");

    assert!(server.next().is_none());

    let content = server.sink.wire.clone();
    assert!(content[9..].starts_with(b"400 Bad Request"));
}

#[test]
fn bad_request_line_is_rejected() {
    let mut server = conn(b"qsd qsd qsd\r\n\r\n");

    assert!(server.next().is_none());

    let content = server.sink.wire.clone();
    assert!(content[9..].starts_with(b"400 Bad Request"));
}

#[test]
fn custom_content_type_response_header() {
    let mut server = conn(b"GET / HTTP/1.1\r\nHost: localhost\r\nConnection: close\r\n\r\n");

    let request = server.next().unwrap();
    let response = Response::from_string("{\"custom\": \"Content-Type\"}").with_header(
        Header::parse(&b"Content-Type: application/json".to_vec()).unwrap(),
    );
    let w = request.respond(response);
    server.sink.finish(w);

    let content = server.sink.wire.clone();
    assert!(content.ends_with(b"{\"custom\": \"Content-Type\"}"));
    assert!(find_sub(&content, b"Content-Type: application/json").is_some());
}

#[test]
fn connection_close_header() {
    let mut server = conn(
        b"GET / HTTP/1.1\r\nConnection: keep-alive\r\n\r\nGET / HTTP/1.1\r\nConnection: close\r\n\r\n",
    );

    let rq1 = server.next().unwrap();
    let w1 = rq1.respond(Response::from_string("hello world"));
    server.sink.finish(w1);

    let rq2 = server.next().unwrap();
    let w2 = rq2.respond(Response::from_string("hello world"));
    server.sink.finish(w2);

    assert!(server.next().is_none());
}

#[test]
fn http_1_0_connection_close() {
    let mut server = conn(b"GET / HTTP/1.0\r\nHost: localhost\r\n\r\n");

    let rq = server.next().unwrap();
    assert!(*rq.http_version() == tiny_http::HTTPVersion(1, 0));
    let w = rq.respond(Response::from_string("hello world"));
    server.sink.finish(w);

    assert!(server.next().is_none());
}

#[test]
fn pipelining_test() {
    let mut server = conn(
        b"GET / HTTP/1.1\r\nHost: localhost\r\n\r\nGET /hello HTTP/1.1\r\nHost: localhost\r\n\r\nGET /world HTTP/1.1\r\nHost: localhost\r\nConnection: close\r\n\r\n",
    );

    let rq1 = server.next().unwrap();
    let rq2 = server.next().unwrap();
    let rq3 = server.next().unwrap();
    assert!(rq2.url() == &b"/hello".to_vec());
    assert!(rq3.url() == &b"/world".to_vec());
    assert!(server.next().is_none());

    for rq in [rq1, rq2, rq3] {
        let w = rq.respond(Response::from_string("hello world"));
        server.sink.finish(w);
    }
    let content = server.sink.wire.clone();
    assert!(content.ends_with(b"hello world"));
}

#[test]
fn responses_reordered() {
    let mut server = conn(
        b"GET / HTTP/1.1\r\nHost: localhost\r\n\r\nGET / HTTP/1.1\r\nHost: localhost\r\nConnection: close\r\n\r\n",
    );

    let rq1 = server.next().unwrap();
    let rq2 = server.next().unwrap();

    // Answering the second request first: its bytes wait for the first
    // response to be finished.
    let w2 = rq2.respond(Response::from_string("second request"));
    server.sink.finish(w2);
    assert!(server.sink.wire.is_empty());

    let w1 = rq1.respond(Response::from_string("first request"));
    server.sink.finish(w1);

    let content = server.sink.wire.clone();
    let first = find_sub(&content, b"first request").unwrap();
    let second = find_sub(&content, b"second request").unwrap();
    assert!(first < second);
}

#[test]
fn server_crash_results_in_response() {
    let mut server = conn(b"GET / HTTP/1.1\r\nHost: localhost\r\nConnection: close\r\n\r\n");

    // The handler gives up on the request without answering it.
    let rq = server.next().unwrap();
    let w = rq.abandon();
    server.sink.finish(w);

    let content = server.sink.wire.clone();
    assert!(content[9..].starts_with(b"500"));
}

#[test]
fn head_request_has_no_body() {
    let mut server = conn(b"HEAD / HTTP/1.1\r\nHost: x\r\n\r\n");

    let rq = server.next().unwrap();
    assert!(*rq.method() == Method::Head);
    let body = vec![b'x'; 100];
    let w = rq.respond(Response::from_data(body));
    server.sink.finish(w);

    let content = server.sink.wire.clone();
    // The status and headers stand, the body does not.
    assert!(content.starts_with(b"HTTP/1.1 200 OK\r\n"));
    assert!(find_sub(&content, b"Content-Length: 100").is_some());
    assert!(content.ends_with(b"\r\n\r\n"));
    assert!(find_sub(&content, b"xxxx").is_none());
}

#[test]
fn unsupported_version_gets_505() {
    let mut server = conn(b"GET / HTTP/5.0\r\nHost: x\r\nConnection: close\r\n\r\n");

    assert!(server.next().is_none());

    let content = server.sink.wire.clone();
    // The abandoned request answers 500 in its own version, then the
    // 505 notice follows.
    let five_hundred = find_sub(&content, b"500 Internal Server Error").unwrap();
    let five_oh_five = find_sub(&content, b"HTTP/1.1 505").unwrap();
    assert!(five_hundred < five_oh_five);
}

#[test]
fn chunked_request_body() {
    let mut server = conn(
        b"POST / HTTP/1.1\r\nHost: x\r\nTransfer-Encoding: chunked\r\n\r\n3\r\nhel\r\n2\r\nlo\r\n0\r\n\r\nGET /next HTTP/1.1\r\nHost: x\r\nConnection: close\r\n\r\n",
    );

    let mut rq = server.next().unwrap();
    assert!(*rq.method() == Method::Post);
    // The Transfer-Encoding hides the Content-Length entirely.
    assert!(rq.body_length().is_none());
    let body = rq.as_reader().read_to_end().unwrap();
    assert_eq!(body, b"hello".to_vec());
    drop(rq);

    // The next pipelined request begins exactly after the chunked body.
    let rq2 = server.next().unwrap();
    assert!(rq2.url() == &b"/next".to_vec());
}

#[test]
fn transfer_encoding_wins_over_content_length() {
    let mut server = conn(
        b"POST / HTTP/1.1\r\nHost: x\r\nContent-Length: 1000\r\nTransfer-Encoding: chunked\r\n\r\n3\r\nabc\r\n0\r\n\r\n",
    );

    let mut rq = server.next().unwrap();
    assert!(rq.body_length().is_none());
    let body = rq.as_reader().read_to_end().unwrap();
    assert_eq!(body, b"abc".to_vec());
}

#[test]
fn upgrade_yields_stream() {
    let mut server = conn(
        b"GET / HTTP/1.1\r\nHost: x\r\nConnection: upgrade\r\nUpgrade: websocket\r\n\r\nleftover",
    );

    let rq = server.next().unwrap();
    assert!(server.next().is_none());

    let mut stream = rq.upgrade(&b"websocket".to_vec(), Response::empty(StatusCode(101)));
    assert!(stream.writer.buffer.starts_with(b"HTTP/1.1 101 Switching Protocols\r\n"));
    assert!(find_sub(&stream.writer.buffer, b"Connection: upgrade").is_some());
    assert!(find_sub(&stream.writer.buffer, b"Upgrade: websocket").is_some());
    let rest = stream.reader.read_to_end().unwrap();
    assert_eq!(rest, b"leftover".to_vec());
}

#[test]
fn into_writer_gives_raw_slot() {
    let mut server = conn(b"GET / HTTP/1.1\r\nHost: x\r\nConnection: close\r\n\r\n");

    let rq = server.next().unwrap();
    let mut w = rq.into_writer();
    w.write(&b"HTTP/1.1 200 OK\r\nContent-Length: 0\r\n\r\n".to_vec());
    server.sink.finish(w);

    assert_eq!(server.sink.wire, b"HTTP/1.1 200 OK\r\nContent-Length: 0\r\n\r\n".to_vec());
}

#[test]
fn transfer_encoding_wins_over_upgrade() {
    // With both a Transfer-Encoding and a Connection: upgrade, the
    // transfer encoding wins: the body is the chunked payload, not the
    // raw remainder of the stream.
    let mut server = conn(
        b"POST / HTTP/1.1\r\nHost: x\r\nConnection: upgrade\r\nTransfer-Encoding: chunked\r\n\r\n3\r\nabc\r\n0\r\n\r\n",
    );

    let mut rq = server.next().unwrap();
    let body = rq.as_reader().read_to_end().unwrap();
    assert_eq!(body, b"abc".to_vec());
}

#[test]
fn non_ascii_header_is_rejected() {
    let mut input = b"GET / HTTP/1.1\r\nHost: local".to_vec();
    input.push(0xff);
    input.extend_from_slice(b"host\r\n\r\n");
    let mut server = conn(&input);

    assert!(server.next().is_none());

    let content = server.sink.wire.clone();
    assert!(content[9..].starts_with(b"400 Bad Request"));
}

#[test]
fn header_field_space_is_trimmed() {
    // A field written with blank space around it names the same header:
    // the parser trims both sides of the colon.
    let header = Header::parse(&b"Content-Length : 5".to_vec()).unwrap();
    assert!(header.field.equiv("content-length"));

    let mut server = conn(b"GET / HTTP/1.1\r\nHost: x\r\nContent-Length : 5\r\n\r\nhello");
    let mut rq = server.next().unwrap();
    assert_eq!(rq.body_length(), Some(5));
    let body = rq.as_reader().read_to_end().unwrap();
    assert_eq!(body, b"hello".to_vec());
}
