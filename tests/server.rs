use http_server::request::{parse_request, Version};
use http_server::server::{
    file_response, parse_echo_path, parse_file_path, Abort, Action, Handler, Step,
};

fn drive(handler: &mut Handler, lines: &[&[u8]]) -> Step {
    let mut last = Step::ReadLine;
    for line in lines {
        last = handler.on_line(line);
        if !matches!(last, Step::ReadLine) {
            return last;
        }
    }
    last
}

fn sent(step: Step) -> Vec<u8> {
    match step {
        Step::Send(bytes) => bytes,
        other => panic!("expected bytes to send, got {:?}", other),
    }
}

#[test]
fn parse_echo_path_test() {
    assert_eq!(parse_echo_path(b"/echo/abc").unwrap(), b"abc".to_vec());
    assert_eq!(parse_echo_path(b"/echo/some/da").unwrap(), b"some/da".to_vec());

    assert!(parse_echo_path(b"/ech").is_err());
}

#[test]
fn parse_file_path_keeps_remainder() {
    assert_eq!(parse_file_path(b"/files/a/b.txt").unwrap(), b"a/b.txt".to_vec());
    assert_eq!(parse_file_path(b"/files/").unwrap(), b"".to_vec());
    assert!(parse_file_path(b"/file").is_err());
}

#[test]
fn get_root_is_ok() {
    let mut h = Handler::new(false);
    let out = sent(drive(&mut h, &[b"GET / HTTP/1.1\r\n", b"Host: x\r\n", b"\r\n"]));
    assert_eq!(out, b"HTTP/1.1 200 OK\r\n\r\n".to_vec());
}

#[test]
fn unknown_path_is_not_found() {
    let mut h = Handler::new(false);
    let out = sent(drive(&mut h, &[b"GET /nope HTTP/1.1\r\n", b"\r\n"]));
    assert_eq!(out, b"HTTP/1.1 404 Not Found\r\n\r\n".to_vec());
}

#[test]
fn other_methods_are_not_found() {
    let mut h = Handler::new(false);
    let out = sent(drive(&mut h, &[b"POST / HTTP/1.0\r\n", b"\r\n"]));
    assert_eq!(out, b"HTTP/1.1 404 Not Found\r\n\r\n".to_vec());
}

#[test]
fn echo_returns_remainder() {
    let mut h = Handler::new(false);
    let out = sent(drive(&mut h, &[b"GET /echo/abc HTTP/1.1\r\n", b"\r\n"]));
    assert_eq!(
        out,
        b"HTTP/1.1 200 OK\r\ncontent-type: text/plain\r\ncontent-length: 3\r\n\r\nabc".to_vec()
    );
}

#[test]
fn echo_keeps_slashes() {
    let mut h = Handler::new(false);
    let out = sent(drive(&mut h, &[b"GET /echo/some/da HTTP/1.1\r\n", b"\r\n"]));
    assert_eq!(
        out,
        b"HTTP/1.1 200 OK\r\ncontent-type: text/plain\r\ncontent-length: 7\r\n\r\nsome/da".to_vec()
    );
}

#[test]
fn user_agent_is_reflected() {
    let mut h = Handler::new(false);
    let out = sent(drive(
        &mut h,
        &[b"GET /user-agent HTTP/1.1\r\n", b"User-Agent: xyz/1.0\r\n", b"\r\n"],
    ));
    assert_eq!(
        out,
        b"HTTP/1.1 200 OK\r\ncontent-type: text/plain\r\ncontent-length: 7\r\n\r\nxyz/1.0".to_vec()
    );
}

#[test]
fn user_agent_missing_aborts() {
    let mut h = Handler::new(false);
    let step = drive(&mut h, &[b"GET /user-agent HTTP/1.1\r\n", b"Host: x\r\n", b"\r\n"]);
    assert!(matches!(step, Step::Abort(Abort::MissingHeader)));
}

#[test]
fn file_is_served() {
    let mut h = Handler::new(true);
    let step = drive(&mut h, &[b"GET /files/report.txt HTTP/1.1\r\n", b"\r\n"]);
    match step {
        Step::ReadFile(p) => assert_eq!(p, b"report.txt".to_vec()),
        other => panic!("expected a file read, got {:?}", other),
    }
    let out = sent(h.on_file(Some(b"hello world".to_vec())));
    assert_eq!(
        out,
        b"HTTP/1.1 200 OK\r\ncontent-type: application/octet-stream\r\ncontent-length: 11\r\n\r\nhello world"
            .to_vec()
    );
}

#[test]
fn missing_file_is_not_found() {
    let mut h = Handler::new(true);
    let step = drive(&mut h, &[b"GET /files/report.txt HTTP/1.1\r\n", b"\r\n"]);
    assert!(matches!(step, Step::ReadFile(_)));
    let out = sent(h.on_file(None));
    assert_eq!(out, b"HTTP/1.1 404 Not Found\r\n\r\n".to_vec());
}

#[test]
fn files_without_directory_abort() {
    let mut h = Handler::new(false);
    let step = drive(&mut h, &[b"GET /files/report.txt HTTP/1.1\r\n", b"\r\n"]);
    assert!(matches!(step, Step::Abort(Abort::ConfigurationMissing)));
}

#[test]
fn stream_ending_mid_headers_aborts_without_bytes() {
    let mut h = Handler::new(false);
    let step = drive(&mut h, &[b"GET / HTTP/1.1\r\n", b"Host: x\r\n", b""]);
    assert!(matches!(step, Step::Abort(Abort::Parse)));
    let mut h = Handler::new(false);
    let step = drive(&mut h, &[b"GET / HTTP/1.1\r\n", b"Host: x"]);
    assert!(matches!(step, Step::Abort(Abort::Parse)));
    assert!(matches!(h.on_line(b"\r\n"), Step::Close));
}

#[test]
fn stream_ending_before_any_byte_closes() {
    let mut h = Handler::new(false);
    assert!(matches!(h.on_line(b""), Step::Close));
}

#[test]
fn malformed_request_aborts() {
    let mut h = Handler::new(false);
    let step = drive(&mut h, &[b"GET / HTTP/3\r\n", b"\r\n"]);
    assert!(matches!(step, Step::Abort(Abort::Parse)));
    let mut h = Handler::new(false);
    assert!(matches!(h.on_line(b"\r\n"), Step::Abort(Abort::Parse)));
}

#[test]
fn handle_request_decides_directly() {
    let req = parse_request(&vec![b"GET /echo/ HTTP/1.0".to_vec()]).unwrap();
    assert_eq!(req.version, Version::Http10);
    match Handler::handle_request(&req, false) {
        Action::Respond(r) => assert_eq!(
            r.serialize(),
            b"HTTP/1.1 200 OK\r\ncontent-type: text/plain\r\ncontent-length: 0\r\n\r\n".to_vec()
        ),
        other => panic!("expected a response, got {:?}", other),
    }
}

#[test]
fn file_response_of_outcome() {
    assert_eq!(file_response(None).serialize(), b"HTTP/1.1 404 Not Found\r\n\r\n".to_vec());
    assert_eq!(
        file_response(Some(Vec::new())).serialize(),
        b"HTTP/1.1 200 OK\r\ncontent-type: application/octet-stream\r\ncontent-length: 0\r\n\r\n"
            .to_vec()
    );
}
