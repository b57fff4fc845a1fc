//! Unit tests for the emitter, the vocabulary types and the small
//! verified components.
use tiny_http::chunks::ChunksDecoder;
use tiny_http::common::Header;
use tiny_http::httpdate::HTTPDate;
use tiny_http::pool::{calculate_dynamic_wait_time, worker_exits_on_timeout, SpawnAction, TaskPool};
use tiny_http::readers::ByteReader;
use tiny_http::response::{choose_transfer_encoding, TransferEncoding};
use tiny_http::HTTPVersion;
use tiny_http::MessagesQueue;
use tiny_http::Response;
use tiny_http::frames::Frame;
use tiny_http::StatusCode;

fn find_sub(haystack: &[u8], needle: &[u8]) -> Option<usize> {
    if needle.len() > haystack.len() {
        return None;
    }
    (0..=haystack.len() - needle.len()).find(|&i| &haystack[i..i + needle.len()] == needle)
}

#[test]
fn default_reason_phrases() {
    assert_eq!(StatusCode(200).default_reason_phrase(), "OK");
    assert_eq!(StatusCode(404).default_reason_phrase(), "Not Found");
    assert_eq!(StatusCode(417).default_reason_phrase(), "Expectation Failed");
    assert_eq!(StatusCode(505).default_reason_phrase(), "HTTP Version not supported");
    assert_eq!(StatusCode(999).default_reason_phrase(), "Unknown");
}

#[test]
fn date_renders_rfc1123() {
    let d = HTTPDate { year: 1994, month: 11, day: 6, weekday: 0, hour: 8, minute: 49, second: 37 };
    assert_eq!(d.to_bytes(), b"Sun,  6 Nov 1994 08:49:37 GMT".to_vec());
    let d2 = HTTPDate {
        year: 2015,
        month: 10,
        day: 21,
        weekday: 3,
        hour: 16,
        minute: 29,
        second: 0,
    };
    assert_eq!(d2.to_bytes(), b"Wed, 21 Oct 2015 16:29:00 GMT".to_vec());
}

#[test]
fn current_date_is_well_formed() {
    let d = HTTPDate::new();
    let bytes = d.to_bytes();
    assert_eq!(bytes.len(), 29);
    assert!(bytes.ends_with(b" GMT"));
    assert!(d.year >= 2024);
}

#[test]
fn reserved_headers_are_dropped() {
    let mut response = Response::from_string("hello");
    let before = response.headers.len();
    response.add_header(Header::parse(&b"Connection: close".to_vec()).unwrap());
    response.add_header(Header::parse(&b"Transfer-Encoding: gzip".to_vec()).unwrap());
    response.add_header(Header::parse(&b"Upgrade: h2c".to_vec()).unwrap());
    assert_eq!(response.headers.len(), before);

    let bytes = response.raw_print(HTTPVersion(1, 1), &Vec::new(), false, None);
    assert!(find_sub(&bytes, b"Connection").is_none());
    assert!(find_sub(&bytes, b"Upgrade").is_none());
}

#[test]
fn content_length_header_sets_length() {
    let response = Response::from_string("hello").with_header(
        Header::parse(&b"Content-Length: 3".to_vec()).unwrap(),
    );
    assert_eq!(response.data_length, Some(3));

    let bytes = response.raw_print(HTTPVersion(1, 1), &Vec::new(), false, None);
    assert!(find_sub(&bytes, b"Content-Length: 3\r\n").is_some());
    assert!(bytes.ends_with(b"\r\nhel"));
}

#[test]
fn no_body_statuses_suppress_body() {
    for status in [100u16, 150, 204, 304] {
        let response = Response::from_string("hello").with_status_code(StatusCode(status));
        let bytes = response.raw_print(HTTPVersion(1, 1), &Vec::new(), false, None);
        assert!(bytes.ends_with(b"\r\n\r\n"));
        assert!(find_sub(&bytes, b"hello").is_none());
    }
}

#[test]
fn te_header_negotiates_chunked() {
    let req_headers = vec![Header::parse(&b"TE: chunked".to_vec()).unwrap()];
    let te = choose_transfer_encoding(&req_headers, &HTTPVersion(1, 1), &Some(5), false);
    assert_eq!(te, TransferEncoding::Chunked);

    let response = Response::from_string("hello world");
    let bytes = response.raw_print(HTTPVersion(1, 1), &req_headers, false, None);
    assert!(find_sub(&bytes, b"Transfer-Encoding: chunked\r\n").is_some());
    assert!(bytes.ends_with(b"b\r\nhello world\r\n0\r\n\r\n"));
}

#[test]
fn te_zero_weight_is_ignored() {
    let req_headers = vec![Header::parse(&b"TE: chunked; q=0".to_vec()).unwrap()];
    let te = choose_transfer_encoding(&req_headers, &HTTPVersion(1, 1), &Some(5), false);
    assert_eq!(te, TransferEncoding::Identity);
}

#[test]
fn http_1_0_always_identity() {
    let req_headers = vec![Header::parse(&b"TE: chunked".to_vec()).unwrap()];
    let te = choose_transfer_encoding(&req_headers, &HTTPVersion(1, 0), &None, false);
    assert_eq!(te, TransferEncoding::Identity);
}

#[test]
fn unknown_length_uses_chunked() {
    let te = choose_transfer_encoding(&Vec::new(), &HTTPVersion(1, 1), &None, false);
    assert_eq!(te, TransferEncoding::Chunked);
    let te2 = choose_transfer_encoding(&Vec::new(), &HTTPVersion(1, 1), &Some(40000), false);
    assert_eq!(te2, TransferEncoding::Chunked);
    let te3 = choose_transfer_encoding(&Vec::new(), &HTTPVersion(1, 1), &Some(5), false);
    assert_eq!(te3, TransferEncoding::Identity);
}

#[test]
fn chunked_response_round_trips() {
    let req_headers = vec![Header::parse(&b"TE: chunked".to_vec()).unwrap()];
    let response = Response::from_string("hello world");
    let bytes = response.raw_print(HTTPVersion(1, 1), &req_headers, false, None);
    let body_at = find_sub(&bytes, b"\r\n\r\n").unwrap() + 4;
    let mut decoder = ChunksDecoder::new(ByteReader::new(bytes[body_at..].to_vec()));
    assert_eq!(decoder.read_to_end().unwrap(), b"hello world".to_vec());
}

#[test]
fn queue_keeps_order() {
    let mut q: MessagesQueue<u32> = MessagesQueue::with_capacity(8);
    assert!(q.pop().is_none());
    q.push(1);
    q.push(2);
    q.push(3);
    assert_eq!(q.pop(), Some(1));
    assert_eq!(q.try_pop(), Some(2));
    assert_eq!(q.pop_timeout(100), Some(3));
    assert!(q.try_pop().is_none());
}

#[test]
fn pool_policy() {
    let mut pool = TaskPool::new(4);
    // all initial workers run, none idle: the task queues
    assert_eq!(pool.spawn(), SpawnAction::Enqueue);
    assert_eq!(pool.todo, 1);

    let mut small = TaskPool {
        thread_count: 4,
        active_tasks: 2,
        waiting_tasks: 0,
        todo: 0,
        memory_threshold: None,
    };
    assert_eq!(small.spawn(), SpawnAction::StartThread);
    assert_eq!(small.active_tasks, 3);

    assert_eq!(calculate_dynamic_wait_time(1, 1, 4), 2500);
    assert_eq!(calculate_dynamic_wait_time(4, 0, 4), 10000);
    assert_eq!(calculate_dynamic_wait_time(3, 0, 4), 5000);
}

#[test]
fn ping_frame_bytes() {
    let mut out: Vec<u8> = Vec::new();
    Frame::Ping(true, 0x0102030405060708).write(&mut out).unwrap();
    assert_eq!(
        out,
        vec![0, 0, 8, 6, 1, 0, 0, 0, 0, 1, 2, 3, 4, 5, 6, 7, 8],
    );
}

#[test]
fn numerals_render() {
    let mut v: Vec<u8> = Vec::new();
    tiny_http::numbers::push_dec(&mut v, 12345);
    assert_eq!(v, b"12345".to_vec());
    let mut h: Vec<u8> = Vec::new();
    tiny_http::numbers::push_hex(&mut h, 255);
    assert_eq!(h, b"ff".to_vec());
    assert_eq!(tiny_http::numbers::parse_dec_u64(&b"+42".to_vec()), Some(42));
    assert_eq!(tiny_http::numbers::parse_dec_u64(&b"4x2".to_vec()), None);
    assert_eq!(tiny_http::numbers::parse_hex_u64(&b"1aF".to_vec()), Some(431));
}

#[test]
fn server_header_injected_once() {
    let response = Response::from_string("x").with_header(
        Header::parse(&b"Server: custom".to_vec()).unwrap(),
    );
    let bytes = response.raw_print(HTTPVersion(1, 1), &Vec::new(), false, None);
    assert!(find_sub(&bytes, b"Server: custom").is_some());
    assert!(find_sub(&bytes, b"tiny-http (Rust)").is_none());
}

#[test]
fn http_1_0_identity_with_unknown_length_buffers() {
    // An HTTP/1.0 client cannot read a chunked body: the emitter must
    // measure the body and announce its length.
    let response = Response::from_string("stream me").with_data(b"stream me".to_vec(), None);
    let bytes = response.raw_print(HTTPVersion(1, 0), &Vec::new(), false, None);
    assert!(bytes.starts_with(b"HTTP/1.0 200 OK\r\n"));
    assert!(find_sub(&bytes, b"Content-Length: 9\r\n").is_some());
    assert!(bytes.ends_with(b"\r\nstream me"));
}

#[test]
fn worker_exit_rule() {
    assert!(!worker_exits_on_timeout(0));
    assert!(!worker_exits_on_timeout(1));
    assert!(worker_exits_on_timeout(2));
}
