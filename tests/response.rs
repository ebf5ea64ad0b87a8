use http_server::response::Response;

#[test]
fn response_serialize_test() {
    assert_eq!(Response::new(200).serialize(), b"HTTP/1.1 200 OK\r\n\r\n".to_vec());
    assert_eq!(
        Response::new(404).serialize(),
        b"HTTP/1.1 404 Not Found\r\n\r\n".to_vec()
    );
}

#[test]
fn response_serialize_test2() {
    let body_bytes = b"abc".to_vec();
    let response = Response::with_body(200, b"text/plain", body_bytes);
    let expected = b"HTTP/1.1 200 OK\r\ncontent-type: text/plain\r\ncontent-length: 3\r\n\r\nabc";
    assert_eq!(response.serialize(), expected.to_vec());
}

#[test]
fn serialize_twice_gives_same_bytes() {
    let response = Response::with_body(200, b"application/octet-stream", b"\x00\x01xyz".to_vec());
    let first = response.serialize();
    let second = response.serialize();
    assert_eq!(first, second);
    assert_eq!(response.serialize_without_body(), response.serialize_without_body());
}

#[test]
fn header_order_is_kept() {
    let response = Response::with_body(200, b"text/plain", b"hello".to_vec());
    let out = response.serialize();
    let text = String::from_utf8(out).unwrap();
    let ct = text.find("content-type: text/plain\r\n").unwrap();
    let cl = text.find("content-length: 5\r\n").unwrap();
    assert!(ct < cl);
    assert!(text.ends_with("\r\n\r\nhello"));
}

#[test]
fn head_without_body() {
    let response = Response::with_body(200, b"text/plain", b"abc".to_vec());
    assert_eq!(
        response.serialize_without_body(),
        b"HTTP/1.1 200 OK\r\ncontent-type: text/plain\r\ncontent-length: 3\r\n\r\n".to_vec()
    );
}

#[test]
fn other_status_codes_have_their_reason() {
    assert_eq!(
        Response::new(500).serialize(),
        b"HTTP/1.1 500 Internal Server Error\r\n\r\n".to_vec()
    );
    assert_eq!(Response::new(599).serialize(), b"HTTP/1.1 599 \r\n\r\n".to_vec());
}

#[test]
fn content_length_of_large_body() {
    let response = Response::with_body(200, b"text/plain", vec![b'x'; 1234]);
    let out = response.serialize_without_body();
    let text = String::from_utf8(out).unwrap();
    assert!(text.contains("content-length: 1234\r\n"));
}
