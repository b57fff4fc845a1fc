//! Tests for the chunked transfer coding and the bounded readers.
use tiny_http::chunks::{ChunksDecoder, ChunksEncoder};
use tiny_http::readers::{ByteReader, EqualReader, EqualWriter};

#[test]
fn test_valid_chunk_decode() {
    let source = ByteReader::new(b"3\r\nhel\r\nb\r\nlo world!!!\r\n0\r\n\r\n".to_vec());
    let mut decoded = ChunksDecoder::new(source);

    let string = decoded.read_to_end().unwrap();

    assert_eq!(string, b"hello world!!!".to_vec());
}

#[test]
#[should_panic]
fn invalid_input1() {
    let source = ByteReader::new(b"2\r\nhel\r\nb\r\nlo world!!!\r\n0\r\n".to_vec());
    let mut decoded = ChunksDecoder::new(source);

    decoded.read_to_end().unwrap();
}

#[test]
#[should_panic]
fn invalid_input2() {
    let source = ByteReader::new(b"3\rhel\r\nb\r\nlo world!!!\r\n0\r\n".to_vec());
    let mut decoded = ChunksDecoder::new(source);

    decoded.read_to_end().unwrap();
}

#[test]
fn test() {
    let mut encoder = ChunksEncoder::new_with_chunks_size(Vec::new(), 5);
    encoder.write(&b"hello world".to_vec());
    let output = encoder.finish();

    assert_eq!(output, b"5\r\nhello\r\n5\r\n worl\r\n1\r\nd\r\n0\r\n\r\n".to_vec());
}

#[test]
fn test_limit() {
    let org_reader = ByteReader::new(b"hello world".to_vec());

    let mut equal_reader = EqualReader::new(org_reader, 5);

    let string = equal_reader.read_to_end();
    assert_eq!(string, b"hello".to_vec());

    let mut org_reader = equal_reader.into_inner();
    let rest = org_reader.read_to_end();
    assert_eq!(rest, b" world".to_vec());
}

#[test]
fn test_not_enough() {
    let org_reader = ByteReader::new(b"hello world".to_vec());

    let mut equal_reader = EqualReader::new(org_reader, 5);

    let one = equal_reader.read(1);
    assert_eq!(one[0], b'h');

    let mut org_reader = equal_reader.into_inner();
    let rest = org_reader.read_to_end();
    assert_eq!(rest, b" world".to_vec());
}

#[test]
fn encoder_default_chunk_size() {
    let mut encoder = ChunksEncoder::new(Vec::new());
    encoder.write(&b"abc".to_vec());
    let output = encoder.finish();
    assert_eq!(output, b"3\r\nabc\r\n0\r\n\r\n".to_vec());
}

#[test]
fn decoder_leaves_source_after_body() {
    let source = ByteReader::new(b"3\r\nabc\r\n0\r\n\r\ntail".to_vec());
    let mut decoded = ChunksDecoder::new(source);
    let data = decoded.read_to_end().unwrap();
    assert_eq!(data, b"abc".to_vec());
    let rest = decoded.source.read_to_end();
    assert_eq!(rest, b"tail".to_vec());
}

#[test]
fn equal_writer_pads_and_truncates() {
    // Too much input: the excess is dropped.
    let mut w = EqualWriter::new(Vec::new(), 5);
    w.write(&b"hello world".to_vec());
    assert_eq!(w.finish(), b"hello".to_vec());

    // Too little input: the rest is filled with zero bytes.
    let mut w2 = EqualWriter::new(Vec::new(), 4);
    w2.write(&b"hi".to_vec());
    assert_eq!(w2.finish(), vec![b'h', b'i', 0, 0]);
}

#[test]
fn body_reads_in_pieces() {
    let mut server = tiny_http::ClientConnection::new(
        b"GET / HTTP/1.1\r\nHost: x\r\nContent-Length: 5\r\n\r\nhello".to_vec(),
        b"127.0.0.1:1".to_vec(),
        false,
    );
    let mut rq = server.next().unwrap();
    let reader = rq.as_reader();
    assert_eq!(reader.read(2).unwrap(), b"he".to_vec());
    assert_eq!(reader.read(100).unwrap(), b"llo".to_vec());
    assert_eq!(reader.read(1).unwrap(), Vec::<u8>::new());
}

#[test]
fn empty_input_closes_silently() {
    let mut server = tiny_http::ClientConnection::new(
        Vec::new(),
        b"127.0.0.1:1".to_vec(),
        false,
    );
    assert!(server.next().is_none());
    assert!(server.sink.wire.is_empty());
}
