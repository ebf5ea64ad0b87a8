use http_server::request::{parse_request, parse_request_line, Version, MAX_HEADER_NUM};

fn lines(ls: &[&[u8]]) -> Vec<Vec<u8>> {
    ls.iter().map(|l| l.to_vec()).collect()
}

#[test]
fn request_line_parts_are_recovered() {
    let (m, t, v) = parse_request_line(b"GET /echo/abc HTTP/1.1").unwrap();
    assert_eq!(m, b"GET".to_vec());
    assert_eq!(t, b"/echo/abc".to_vec());
    assert_eq!(v, Version::Http11);
    let (m, t, v) = parse_request_line(b"POST /x HTTP/1.0").unwrap();
    assert_eq!(m, b"POST".to_vec());
    assert_eq!(t, b"/x".to_vec());
    assert_eq!(v, Version::Http10);
}

#[test]
fn unknown_version_is_refused() {
    assert!(parse_request_line(b"GET / HTTP/2.0").is_err());
    assert!(parse_request_line(b"GET / http/1.1").is_err());
    assert!(parse_request_line(b"GET / HTTP/1.1 ").is_err());
}

#[test]
fn wrong_token_count_is_refused() {
    assert!(parse_request_line(b"GET /").is_err());
    assert!(parse_request_line(b"GET / HTTP/1.1 extra").is_err());
    assert!(parse_request_line(b"GET  / HTTP/1.1").is_err());
    assert!(parse_request_line(b"").is_err());
}

#[test]
fn target_must_start_with_slash() {
    assert!(parse_request_line(b"GET echo HTTP/1.1").is_err());
    assert!(parse_request_line(b" / HTTP/1.1").is_err());
}

#[test]
fn headers_are_parsed_in_order() {
    let req = parse_request(&lines(&[
        b"GET / HTTP/1.1",
        b"Host: localhost:4221",
        b"User-Agent:curl/8.0",
        b": skipped",
        b"Accept:  */*",
    ]))
    .unwrap();
    assert_eq!(req.headers.len(), 3);
    assert_eq!(req.headers[0].name, b"Host".to_vec());
    assert_eq!(req.headers[0].value, b"localhost:4221".to_vec());
    assert_eq!(req.headers[1].value, b"curl/8.0".to_vec());
    assert_eq!(req.headers[2].name, b"Accept".to_vec());
    assert_eq!(req.headers[2].value, b" */*".to_vec());
}

#[test]
fn header_lookup_ignores_case() {
    let req = parse_request(&lines(&[b"GET / HTTP/1.1", b"uSER-aGENT: a", b"User-Agent: b"])).unwrap();
    assert_eq!(req.header(b"user-agent"), Some(b"b".to_vec()));
    assert_eq!(req.header(b"host"), None);
}

#[test]
fn malformed_header_lines_are_refused() {
    assert!(parse_request(&lines(&[b"GET / HTTP/1.1", b"NoColonHere"])).is_err());
    assert!(parse_request(&lines(&[b"GET / HTTP/1.1", b"X: a\rb"])).is_err());
    assert!(parse_request(&lines(&[])).is_err());
}

#[test]
fn header_count_is_bounded() {
    let mut ok: Vec<Vec<u8>> = vec![b"GET / HTTP/1.1".to_vec()];
    for i in 0..MAX_HEADER_NUM {
        ok.push(format!("X-{}: v", i).into_bytes());
    }
    assert_eq!(parse_request(&ok).unwrap().headers.len(), MAX_HEADER_NUM);
    ok.push(b"X-last: v".to_vec());
    assert!(parse_request(&ok).is_err());
}
