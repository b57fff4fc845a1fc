//! Tests for the request-line and header parsing.
use tiny_http::client::parse_http_version;
use tiny_http::client::parse_request_line;
use tiny_http::Header;
use tiny_http::Method;
use tiny_http::Request;

#[test]
fn test_parse_request_line() {
    let (method, path, ver) = match parse_request_line(&b"GET /hello HTTP/1.1".to_vec()) {
        Err(_) => panic!(),
        Ok(v) => v,
    };

    assert!(method == Method::Get);
    assert!(path == b"/hello".to_vec());
    assert!(ver == tiny_http::HTTPVersion(1, 1));

    assert!(parse_request_line(&b"GET /hello".to_vec()).is_err());
    assert!(parse_request_line(&b"qsd qsd qsd".to_vec()).is_err());
}

#[test]
fn common_test_parse_header() {
    let header: Header = Header::parse(&b"Content-Type: text/html".to_vec()).unwrap();

    assert!(header.field.equiv("content-type"));
    assert!(header.value == b"text/html".to_vec());

    assert!(Header::parse(&b"hello world".to_vec()).is_none());
}

#[test]
fn test_parse_header_with_doublecolon() {
    let header: Header = Header::parse(&b"Time: 20: 34".to_vec()).unwrap();

    assert!(header.field.equiv("time"));
    assert!(header.value == b"20: 34".to_vec());
}

#[test]
fn mod_test_parse_header() {
    let result = tiny_http::parse_header_value(
        &b"text/html, text/plain; q=1.5 , image/png ; q=2.0".to_vec(),
    );

    assert_eq!(result.len(), 3);
    assert_eq!(result[0].0, b"text/html".to_vec());
    assert_eq!(result[0].1, 1000);
    assert_eq!(result[1].0, b"text/plain".to_vec());
    assert_eq!(result[1].1, 1500);
    assert_eq!(result[2].0, b"image/png".to_vec());
    assert_eq!(result[2].1, 2000);
}

#[test]
fn must_be_send() {
    #![allow(dead_code)]
    fn f<T: Send>(_: &T) {}
    fn bar(rq: &Request) {
        f(rq);
    }
}

#[test]
fn method_equality_ignores_case() {
    let a = Method::parse(&b"get".to_vec()).unwrap();
    assert!(a == Method::Get);
    let b = Method::parse(&b"BREW".to_vec()).unwrap();
    let c = Method::parse(&b"brew".to_vec()).unwrap();
    assert!(b == c);
    assert!(b != Method::Get);
    assert_eq!(Method::Get.as_str(), b"GET".to_vec());
    assert_eq!(b.as_str(), b"BREW".to_vec());
}

#[test]
fn version_parse_details() {
    assert_eq!(parse_http_version(&b"HTTP/1.0".to_vec()).unwrap(), tiny_http::HTTPVersion(1, 0));
    assert_eq!(parse_http_version(&b"HTTP/2.0".to_vec()).unwrap(), tiny_http::HTTPVersion(2, 0));
    assert!(parse_http_version(&b"HTTP".to_vec()).is_err());
    assert!(parse_http_version(&b"HTTP/1".to_vec()).is_err());
    assert!(parse_http_version(&b"HTTP/x.1".to_vec()).is_err());
}
