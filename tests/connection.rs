use http_server::connection::{Connection, ReadStep};

#[test]
fn reader_collects_lines_until_blank_line() {
    let mut c = Connection::new();
    assert_eq!(c.read_line(b"GET /echo/x HTTP/1.1\r\n"), ReadStep::More);
    assert_eq!(c.read_line(b"Host: y\r\n"), ReadStep::More);
    assert_eq!(c.read_line(b"\r\n"), ReadStep::Complete);
    let req = c.read_req().unwrap();
    assert_eq!(req.target, b"/echo/x".to_vec());
    assert_eq!(req.headers.len(), 1);
}

#[test]
fn reader_end_of_stream() {
    let mut c = Connection::new();
    assert_eq!(c.read_line(b""), ReadStep::Closed);
    let mut c = Connection::new();
    assert_eq!(c.read_line(b"GET / HTTP/1.1\r\n"), ReadStep::More);
    assert_eq!(c.read_line(b""), ReadStep::Malformed);
    let mut c = Connection::new();
    assert_eq!(c.read_line(b"GET / HTTP/1.1\n"), ReadStep::Malformed);
}
